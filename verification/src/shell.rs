//! Proposal construction.
//!
//! A proposer assembles a block from three ordered parts: one protocol
//! transaction carrying the aggregated vote-extension digest of the
//! previous block, at most half of the new mempool transactions (keeping
//! only valid wrappers), and the decrypted counterpart of every wrapper
//! queued by the previous block, in queue order.

use vstd::prelude::*;
use crate::address::{Address, AddressV, address_eq, copy_address};
use crate::voting::{WeightedValidator, spec_total_stake, spec_stake_of, spec_stake_sum,
    spec_stake_lookup, stake_lookup, lemma_stake_sum_push, sum_voting_powers};
use crate::vote_ext::{SignedVext, SignedVextV, Vext, enc_vext, VextDigest, VextDigestV,
    MultiSignedEthEvent, MultiSignedEthEventV, EthereumEvent, EthereumEventV, TransferToNamada,
    event_eq};
use crate::transaction::{TxType, TxTypeV, ProtocolTx, ProtocolTxV, DecryptedTx, DecryptedTxV,
    WrapperTxV, process_tx, process_tx_spec, enc_txtype};
use crate::tx::{Tx, TxV, TxCodeV, enc_tx, copy_bytes};
use crate::queue::TxQueue;
use crate::crypto::{ed_verify, ed_pubkey, ed_pubkey_bytes};
use crate::bytes::view_opt;

verus! {

/// What a proposer asks the mempool to do with one transaction.
#[derive(Clone, Copy, Debug, PartialEq, Eq, Structural)]
pub enum TxAction {
    /// Keep this transaction in the proposal.
    Unmodified,
    /// Add a transaction the mempool did not provide.
    Added,
    /// Remove this transaction from the proposal.
    Removed,
}

/// One entry of a proposal: an action over transaction bytes.
#[derive(Clone, Debug)]
pub struct TxRecord {
    pub action: TxAction,
    pub tx: Vec<u8>,
}

impl PartialEq for TxRecord {
    fn eq(&self, other: &TxRecord) -> (r: bool) {
        self.action == other.action && crate::bytes::bytes_eq(&self.tx, &other.tx)
    }
}

impl vstd::std_specs::cmp::PartialEqSpecImpl for TxRecord {
    open spec fn obeys_eq_spec() -> bool {
        true
    }

    open spec fn eq_spec(&self, other: &TxRecord) -> bool {
        self.action == other.action && self.tx@ == other.tx@
    }
}

impl Eq for TxRecord {

}

/// Keep this transaction in the proposal.
pub fn keep(tx: Vec<u8>) -> (r: TxRecord)
    ensures
        r.action == TxAction::Unmodified,
        r.tx@ == tx@,
{
    TxRecord { action: TxAction::Unmodified, tx }
}

/// A transaction added to the proposal that the mempool did not provide.
pub fn add(tx: Vec<u8>) -> (r: TxRecord)
    ensures
        r.action == TxAction::Added,
        r.tx@ == tx@,
{
    TxRecord { action: TxAction::Added, tx }
}

/// Remove this transaction from the set the mempool provided.
pub fn remove(tx: Vec<u8>) -> (r: TxRecord)
    ensures
        r.action == TxAction::Removed,
        r.tx@ == tx@,
{
    TxRecord { action: TxAction::Removed, tx }
}

/// Why a proposal could not be built.
#[derive(Clone, Copy, Debug, PartialEq, Eq, Structural)]
pub enum PrepareError {
    /// No vote extensions were handed over for a block past genesis.
    MissingVoteExtensions,
    /// The vote extensions reflect two thirds of the stake or less: a
    /// consensus-safety violation by the proposer's inputs.
    QuorumNotReached,
}

/// The consensus-facing state a proposer reads.
pub struct ShellState {
    /// The last committed block height.
    pub last_height: u64,
    /// The current epoch.
    pub epoch: u64,
    /// The consensus validator set at the epoch of the last height.
    pub validator_set: Vec<WeightedValidator>,
    /// Each validator's protocol public key.
    pub validator_pks: Vec<(Address, Vec<u8>)>,
    /// The queue of wrappers accepted by the previous block.
    pub tx_queue: TxQueue,
    /// The protocol secret key; present only on validator nodes.
    pub protocol_sk: Option<Vec<u8>>,
}

/// The protocol key of an address, if registered.
pub open spec fn spec_pk_lookup(pks: Seq<(Address, Vec<u8>)>, a: AddressV) -> Option<Seq<u8>>
    decreases pks.len(),
{
    if pks.len() == 0 {
        None
    } else if pks[0].0@ == a {
        Some(pks[0].1@)
    } else {
        spec_pk_lookup(pks.drop_first(), a)
    }
}

/// Whether a list of event values has no duplicates.
pub open spec fn no_dup_events_v(es: Seq<EthereumEventV>) -> bool {
    forall|i: int, j: int| 0 <= i < j < es.len() ==> (#[trigger] es[i]) != (#[trigger] es[j])
}

impl ShellState {
    /// The state invariant: a validator holds a 32-byte protocol key, and
    /// the total stake fits the stake arithmetic.
    pub open spec fn wf(&self) -> bool {
        &&& (self.protocol_sk matches Some(k) ==> k@.len() == 32)
        &&& spec_total_stake(self.validator_set@) <= u64::MAX
    }

    /// The §filtering rules: a vote extension is retained only if it is
    /// stamped with the last committed height, its issuer sits in the
    /// validator set and signed it with its registered protocol key, and
    /// it carries no duplicate events.
    pub open spec fn valid_svext(&self, sv: SignedVextV) -> bool {
        &&& sv.data.block_height == self.last_height
        &&& spec_stake_lookup(self.validator_set@, sv.data.validator_addr) is Some
        &&& spec_pk_lookup(self.validator_pks@, sv.data.validator_addr) matches Some(pk)
            && ed_verify(pk, enc_vext(sv.data), sv.sig)
        &&& no_dup_events_v(sv.data.ethereum_events)
    }

    /// Looks up a validator's protocol key.
    pub fn pk_lookup(&self, a: &Address) -> (r: Option<Vec<u8>>)
        ensures
            view_opt(r) == spec_pk_lookup(self.validator_pks@, a@),
    {
        let n = self.validator_pks.len();
        proof {
            assert(self.validator_pks@.skip(0) =~= self.validator_pks@);
        }
        for i in 0..n
            invariant
                n == self.validator_pks@.len(),
                spec_pk_lookup(self.validator_pks@, a@) == spec_pk_lookup(
                    self.validator_pks@.skip(i as int),
                    a@,
                ),
        {
            proof {
                assert(self.validator_pks@.skip(i as int)[0] == self.validator_pks@[i as int]);
                assert(self.validator_pks@.skip(i as int).drop_first() =~= self.validator_pks@
                    .skip(i + 1));
            }
            if address_eq(&self.validator_pks[i].0, a) {
                return Some(copy_bytes(&self.validator_pks[i].1));
            }
        }
        proof {
            assert(self.validator_pks@.skip(n as int) =~= Seq::<(Address, Vec<u8>)>::empty());
        }
        None
    }

    /// Whether one signed vote extension passes the filtering rules.
    pub fn is_valid_svext(&self, sv: &SignedVext) -> (r: bool)
        ensures
            r == self.valid_svext(sv@),
    {
        if sv.data.block_height != self.last_height {
            return false;
        }
        if stake_lookup(&self.validator_set, &sv.data.validator_addr).is_none() {
            return false;
        }
        let pk = match self.pk_lookup(&sv.data.validator_addr) {
            Some(pk) => pk,
            None => {
                return false;
            },
        };
        if !sv.verify(&pk) {
            return false;
        }
        let ghost es = sv@.data.ethereum_events;
        let n = sv.data.ethereum_events.len();
        for i in 0..n
            invariant
                es == sv@.data.ethereum_events,
                n == sv.data.ethereum_events@.len(),
                n == es.len(),
                forall|x: int, y: int| 0 <= x < y < n && x < i ==> (#[trigger] es[x])
                    != (#[trigger] es[y]),
        {
            for j in (i + 1)..n
                invariant
                    es == sv@.data.ethereum_events,
                    n == sv.data.ethereum_events@.len(),
                    n == es.len(),
                    i < n,
                    forall|y: int| i < y < j ==> (#[trigger] es[y]) != es[i as int],
            {
                if event_eq(&sv.data.ethereum_events[i], &sv.data.ethereum_events[j]) {
                    proof {
                        assert(es[i as int] == sv.data.ethereum_events@[i as int]@);
                        assert(es[j as int] == sv.data.ethereum_events@[j as int]@);
                    }
                    return false;
                }
                proof {
                    assert(es[i as int] == sv.data.ethereum_events@[i as int]@);
                    assert(es[j as int] == sv.data.ethereum_events@[j as int]@);
                }
            }
        }
        true
    }

    /// The valid vote extensions, in order.
    pub open spec fn spec_filter_valid(&self, s: Seq<SignedVextV>) -> Seq<SignedVextV>
        decreases s.len(),
    {
        if s.len() == 0 {
            Seq::empty()
        } else {
            let rest = self.spec_filter_valid(s.drop_last());
            if self.valid_svext(s.last()) {
                rest.push(s.last())
            } else {
                rest
            }
        }
    }

    /// Drops the invalid vote extensions, keeping the order.
    pub fn filter_invalid_eth_events_vexts(&self, exts: &Vec<SignedVext>) -> (r: Vec<SignedVext>)
        ensures
            r@.map_values(|sv: SignedVext| sv@) == self.spec_filter_valid(
                exts@.map_values(|sv: SignedVext| sv@),
            ),
    {
        let ghost vs = exts@.map_values(|sv: SignedVext| sv@);
        let mut out: Vec<SignedVext> = Vec::new();
        let n = exts.len();
        proof {
            assert(vs.take(0) =~= Seq::<SignedVextV>::empty());
            assert(out@.map_values(|sv: SignedVext| sv@) =~= self.spec_filter_valid(vs.take(0)));
        }
        for i in 0..n
            invariant
                n == exts@.len(),
                vs == exts@.map_values(|sv: SignedVext| sv@),
                out@.map_values(|sv: SignedVext| sv@) == self.spec_filter_valid(
                    vs.take(i as int),
                ),
        {
            proof {
                assert(vs.take(i + 1).drop_last() =~= vs.take(i as int));
                assert(vs.take(i + 1).last() == vs[i as int]);
                assert(vs[i as int] == exts@[i as int]@);
            }
            let ghost old_out = out@;
            if self.is_valid_svext(&exts[i]) {
                out.push(copy_svext(&exts[i]));
                proof {
                    assert(out@.map_values(|sv: SignedVext| sv@) =~= old_out.map_values(
                        |sv: SignedVext| sv@,
                    ).push(exts@[i as int]@));
                }
            }
        }
        proof {
            assert(vs.take(n as int) =~= vs);
        }
        out
    }
}

/// Copies a transfer.
pub fn copy_transfer(t: &TransferToNamada) -> (r: TransferToNamada)
    ensures
        r@ == t@,
{
    TransferToNamada {
        amount: t.amount,
        asset: copy_bytes(&t.asset),
        receiver: copy_address(&t.receiver),
    }
}

/// Copies an event.
pub fn copy_event(e: &EthereumEvent) -> (r: EthereumEvent)
    ensures
        r@ == e@,
{
    match e {
        EthereumEvent::TransfersToNamada { nonce, transfers } => {
            let mut ts: Vec<TransferToNamada> = Vec::new();
            let n = transfers.len();
            for i in 0..n
                invariant
                    n == transfers@.len(),
                    ts@.len() == i,
                    forall|k: int| 0 <= k < i ==> (#[trigger] ts@[k])@ == transfers@[k]@,
            {
                ts.push(copy_transfer(&transfers[i]));
            }
            let r = EthereumEvent::TransfersToNamada { nonce: *nonce, transfers: ts };
            proof {
                assert(r@->TransfersToNamada_transfers =~= e@->TransfersToNamada_transfers);
            }
            r
        },
        EthereumEvent::ValidatorSetUpdate { nonce } => {
            EthereumEvent::ValidatorSetUpdate { nonce: *nonce }
        },
    }
}

/// Copies a vote extension.
pub fn copy_vext(v: &Vext) -> (r: Vext)
    ensures
        r@ == v@,
{
    let mut events: Vec<EthereumEvent> = Vec::new();
    let n = v.ethereum_events.len();
    for i in 0..n
        invariant
            n == v.ethereum_events@.len(),
            events@.len() == i,
            forall|k: int| 0 <= k < i ==> (#[trigger] events@[k])@ == v.ethereum_events@[k]@,
    {
        events.push(copy_event(&v.ethereum_events[i]));
    }
    let r = Vext {
        validator_addr: copy_address(&v.validator_addr),
        block_height: v.block_height,
        ethereum_events: events,
    };
    proof {
        assert(r@.ethereum_events =~= v@.ethereum_events);
    }
    r
}

/// Copies a signed vote extension.
pub fn copy_svext(sv: &SignedVext) -> (r: SignedVext)
    ensures
        r@ == sv@,
{
    SignedVext { data: copy_vext(&sv.data), sig: copy_bytes(&sv.sig) }
}


/// The address views of a signature list.
pub open spec fn sig_addrs(sigs: Seq<(Address, Vec<u8>)>) -> Seq<AddressV> {
    sigs.map_values(|e: (Address, Vec<u8>)| e.0@)
}

/// A list of addresses extended with one more, unless already present.
pub open spec fn add_signer(acc: Seq<AddressV>, a: AddressV) -> Seq<AddressV> {
    if acc.contains(a) {
        acc
    } else {
        acc.push(a)
    }
}

/// The distinct issuers of a list of vote extensions, in first-seen order.
pub open spec fn spec_signers(valid: Seq<SignedVextV>) -> Seq<AddressV>
    decreases valid.len(),
{
    if valid.len() == 0 {
        Seq::empty()
    } else {
        add_signer(spec_signers(valid.drop_last()), valid.last().data.validator_addr)
    }
}

/// Whether a set of signed addresses holds more than two thirds of the
/// total stake.
pub open spec fn quorum(vs: Seq<WeightedValidator>, addrs: Seq<AddressV>) -> bool {
    3 * spec_stake_sum(vs, addrs) > 2 * spec_total_stake(vs)
}

/// Whether a digest meets the quorum rules: its issuers hold more than two
/// thirds of the stake, and so do the signers of each retained event.
pub open spec fn digest_quorum_ok(vs: Seq<WeightedValidator>, d: VextDigestV) -> bool {
    &&& quorum(vs, d.signatures.map_values(|e: (AddressV, Seq<u8>)| e.0))
    &&& forall|k: int| 0 <= k < d.events.len() ==> quorum(vs, (#[trigger] d.events[k]).signers)
}

/// A stake sum is bounded by the count of addresses times the largest
/// stake a single validator can hold.
pub proof fn lemma_stake_sum_bound(vs: Seq<WeightedValidator>, addrs: Seq<AddressV>)
    ensures
        0 <= spec_stake_sum(vs, addrs) <= addrs.len() * 0xFFFFFFFFFFFFFFFF,
    decreases addrs.len(),
{
    if addrs.len() == 0 {
    } else {
        lemma_stake_sum_bound(vs, addrs.drop_first());
        assert(spec_stake_of(vs, addrs[0]) <= 0xFFFFFFFFFFFFFFFF);
        assert(0xFFFFFFFFFFFFFFFF + (addrs.len() - 1) * 0xFFFFFFFFFFFFFFFF == addrs.len()
            * 0xFFFFFFFFFFFFFFFF) by (nonlinear_arith)
            requires
                addrs.len() >= 1,
        ;
    }
}

/// Whether a signature list already carries an address.
pub fn sig_contains(sigs: &Vec<(Address, Vec<u8>)>, a: &Address) -> (r: bool)
    ensures
        r == sig_addrs(sigs@).contains(a@),
{
    let n = sigs.len();
    for i in 0..n
        invariant
            n == sigs@.len(),
            forall|k: int| 0 <= k < i ==> sig_addrs(sigs@)[k] != a@,
    {
        if address_eq(&sigs[i].0, a) {
            proof {
                assert(sig_addrs(sigs@)[i as int] == a@);
            }
            return true;
        }
    }
    proof {
        if sig_addrs(sigs@).contains(a@) {
            let k = choose|k: int| 0 <= k < sig_addrs(sigs@).len() && sig_addrs(sigs@)[k] == a@;
            assert(false);
        }
    }
    false
}

/// The combined stake of a list of addresses.
pub fn stake_sum_of_addrs(vs: &Vec<WeightedValidator>, addrs: &Vec<Address>) -> (r: u128)
    ensures
        r == spec_stake_sum(vs@, addrs@.map_values(|a: Address| a@)),
{
    let ghost avs = addrs@.map_values(|a: Address| a@);
    let mut acc: u128 = 0;
    let n = addrs.len();
    proof {
        assert(avs.take(0) =~= Seq::<AddressV>::empty());
    }
    for i in 0..n
        invariant
            n == addrs@.len(),
            avs == addrs@.map_values(|a: Address| a@),
            acc == spec_stake_sum(vs@, avs.take(i as int)),
            acc <= i * 0xFFFFFFFFFFFFFFFF,
    {
        let stake: u64 = match stake_lookup(vs, &addrs[i]) {
            Some(s) => s,
            None => 0u64,
        };
        proof {
            assert(avs.take(i + 1) =~= avs.take(i as int).push(avs[i as int]));
            lemma_stake_sum_push(vs@, avs.take(i as int), avs[i as int]);
            assert(avs[i as int] == addrs@[i as int]@);
            assert(stake == spec_stake_of(vs@, avs[i as int]));
            assert((i + 1) * 0xFFFFFFFFFFFFFFFF == i * 0xFFFFFFFFFFFFFFFF + 0xFFFFFFFFFFFFFFFF)
                by (nonlinear_arith)
            ;
            assert(i * 0xFFFFFFFFFFFFFFFF <= (n - 1) * 0xFFFFFFFFFFFFFFFF) by (nonlinear_arith)
                requires
                    0 <= i <= n - 1,
            ;
            assert((n - 1) * 0xFFFFFFFFFFFFFFFF + 0xFFFFFFFFFFFFFFFF <= u128::MAX)
                by (nonlinear_arith)
                requires
                    n <= 0xFFFFFFFFFFFFFFFF,
            ;
        }
        acc = acc + (stake as u128);
    }
    proof {
        assert(avs.take(n as int) =~= avs);
    }
    acc
}

/// The first group carrying an event, or the length when none does.
pub open spec fn spec_find_group(gs: Seq<MultiSignedEthEventV>, e: EthereumEventV) -> int
    decreases gs.len(),
{
    if gs.len() == 0 {
        0int
    } else if gs[0].event == e {
        0int
    } else {
        1 + spec_find_group(gs.drop_first(), e)
    }
}

/// An index below which no group carries the event, and which carries it
/// itself (or is the length), is where the search lands.
proof fn lemma_find_group_at(gs: Seq<MultiSignedEthEventV>, e: EthereumEventV, gi: int)
    requires
        0 <= gi <= gs.len(),
        forall|k: int| 0 <= k < gi ==> (#[trigger] gs[k]).event != e,
        gi < gs.len() ==> gs[gi].event == e,
    ensures
        spec_find_group(gs, e) == gi,
    decreases gi,
{
    if gi == 0 {
    } else {
        assert(gs[0].event != e);
        assert(forall|k: int| 0 <= k < gi - 1 ==> (#[trigger] gs.drop_first()[k]) == gs[k + 1]);
        lemma_find_group_at(gs.drop_first(), e, gi - 1);
    }
}

/// One extension's event folded into the groups: the signer joins the
/// first group carrying the event, or opens a new group.
pub open spec fn spec_add_event(
    gs: Seq<MultiSignedEthEventV>,
    e: EthereumEventV,
    a: AddressV,
) -> Seq<MultiSignedEthEventV> {
    let i = spec_find_group(gs, e);
    if i == gs.len() {
        gs.push(MultiSignedEthEventV { event: e, signers: seq![a] })
    } else {
        gs.update(i, MultiSignedEthEventV { event: e, signers: add_signer(gs[i].signers, a) })
    }
}

/// One extension's events folded into the groups, in order.
pub open spec fn spec_add_events(
    gs: Seq<MultiSignedEthEventV>,
    es: Seq<EthereumEventV>,
    a: AddressV,
) -> Seq<MultiSignedEthEventV>
    decreases es.len(),
{
    if es.len() == 0 {
        gs
    } else {
        spec_add_event(spec_add_events(gs, es.drop_last(), a), es.last(), a)
    }
}

/// The event groups of a list of vote extensions: every event of every
/// extension, grouped by event value, each with its deduplicated signers
/// in first-seen order.
pub open spec fn spec_groups(valid: Seq<SignedVextV>) -> Seq<MultiSignedEthEventV>
    decreases valid.len(),
{
    if valid.len() == 0 {
        Seq::empty()
    } else {
        spec_add_events(
            spec_groups(valid.drop_last()),
            valid.last().data.ethereum_events,
            valid.last().data.validator_addr,
        )
    }
}

/// The groups whose signers reach the two-thirds quorum, in order.
pub open spec fn spec_retained(
    vs: Seq<WeightedValidator>,
    gs: Seq<MultiSignedEthEventV>,
) -> Seq<MultiSignedEthEventV>
    decreases gs.len(),
{
    if gs.len() == 0 {
        Seq::empty()
    } else {
        let rest = spec_retained(vs, gs.drop_last());
        if quorum(vs, gs.last().signers) {
            rest.push(gs.last())
        } else {
            rest
        }
    }
}

/// Whether a list of addresses carries the given one.
pub fn addrs_contain(v: &Vec<Address>, a: &Address) -> (r: bool)
    ensures
        r == v@.map_values(|x: Address| x@).contains(a@),
{
    let ghost av = v@.map_values(|x: Address| x@);
    let n = v.len();
    for i in 0..n
        invariant
            n == v@.len(),
            av == v@.map_values(|x: Address| x@),
            forall|k: int| 0 <= k < i ==> av[k] != a@,
    {
        if address_eq(&v[i], a) {
            proof {
                assert(av[i as int] == a@);
            }
            return true;
        }
    }
    proof {
        if av.contains(a@) {
            let j = choose|j: int| 0 <= j < av.len() && av[j] == a@;
            assert(false);
        }
    }
    false
}

impl ShellState {
    /// Whether a list of vote extensions reaches the two-thirds quorum
    /// once filtered and deduplicated by issuer.
    pub open spec fn vext_quorum(&self, exts: Seq<SignedVextV>) -> bool {
        quorum(self.validator_set@, spec_signers(self.spec_filter_valid(exts)))
    }

    /// Aggregates vote extensions into a digest: invalid extensions are
    /// dropped, events are grouped with their (deduplicated) signers and
    /// retained only under a two-thirds quorum of stake, and the digest is
    /// produced only if the issuers themselves hold more than two thirds
    /// of the stake.
    pub fn compress_ethereum_events(&self, exts: Vec<SignedVext>) -> (r: Option<VextDigest>)
        requires
            self.wf(),
        ensures
            r is Some <==> self.vext_quorum(exts@.map_values(|sv: SignedVext| sv@)),
            r matches Some(d) ==> {
                &&& sig_addrs_v(d@.signatures) == spec_signers(
                    self.spec_filter_valid(exts@.map_values(|sv: SignedVext| sv@)),
                )
                &&& d@.events == spec_retained(
                    self.validator_set@,
                    spec_groups(self.spec_filter_valid(exts@.map_values(|sv: SignedVext| sv@))),
                )
                &&& digest_quorum_ok(self.validator_set@, d@)
            },
    {
        let ghost input_views = exts@.map_values(|sv: SignedVext| sv@);
        let valid = self.filter_invalid_eth_events_vexts(&exts);
        let ghost vviews = valid@.map_values(|sv: SignedVext| sv@);
        let total: u64 = sum_voting_powers(&self.validator_set);
        let mut sigs: Vec<(Address, Vec<u8>)> = Vec::new();
        let mut voting: u128 = 0;
        let mut groups: Vec<MultiSignedEthEvent> = Vec::new();
        let n = valid.len();
        proof {
            assert(vviews.take(0) =~= Seq::<SignedVextV>::empty());
            assert(sig_addrs(sigs@) =~= spec_signers(vviews.take(0)));
            assert(groups@.map_values(|m: MultiSignedEthEvent| m@) =~= spec_groups(
                vviews.take(0),
            ));
        }
        for i in 0..n
            invariant
                n == valid@.len(),
                vviews == valid@.map_values(|sv: SignedVext| sv@),
                sig_addrs(sigs@) == spec_signers(vviews.take(i as int)),
                voting == spec_stake_sum(self.validator_set@, sig_addrs(sigs@)),
                sigs@.len() <= i,
                voting <= sigs@.len() * 0xFFFFFFFFFFFFFFFF,
                groups@.map_values(|m: MultiSignedEthEvent| m@) == spec_groups(
                    vviews.take(i as int),
                ),
        {
            let sv = &valid[i];
            proof {
                assert(vviews.take(i + 1).drop_last() =~= vviews.take(i as int));
                assert(vviews.take(i + 1).last() == vviews[i as int]);
                assert(vviews[i as int] == valid@[i as int]@);
            }
            if !sig_contains(&sigs, &sv.data.validator_addr) {
                let stake: u64 = match stake_lookup(&self.validator_set, &sv.data.validator_addr) {
                    Some(s) => s,
                    None => 0u64,
                };
                proof {
                    lemma_stake_sum_push(
                        self.validator_set@,
                        sig_addrs(sigs@),
                        sv.data.validator_addr@,
                    );
                    lemma_stake_sum_bound(self.validator_set@, sig_addrs(sigs@));
                    assert((sigs@.len() + 1) * 0xFFFFFFFFFFFFFFFF == sigs@.len()
                        * 0xFFFFFFFFFFFFFFFF + 0xFFFFFFFFFFFFFFFF) by (nonlinear_arith)
                    ;
                    assert((i + 1) * 0xFFFFFFFFFFFFFFFF <= 0xFFFFFFFFFFFFFFFF
                        * 0xFFFFFFFFFFFFFFFF) by (nonlinear_arith)
                        requires
                            0 <= i + 1 <= 0xFFFFFFFFFFFFFFFF,
                    ;
                    assert(sigs@.len() * 0xFFFFFFFFFFFFFFFF <= (i as int) * 0xFFFFFFFFFFFFFFFF)
                        by (nonlinear_arith)
                        requires
                            0 <= sigs@.len() <= i,
                    ;
                }
                let ghost old_sigs = sigs@;
                voting = voting + (stake as u128);
                sigs.push((copy_address(&sv.data.validator_addr), copy_bytes(&sv.sig)));
                proof {
                    assert(sig_addrs(sigs@) =~= sig_addrs(old_sigs).push(
                        sv.data.validator_addr@,
                    ));
                }
            }
            // group this extension's events with their signers
            let ghost gs0 = spec_groups(vviews.take(i as int));
            let ghost evs = vviews[i as int].data.ethereum_events;
            let ghost av = vviews[i as int].data.validator_addr;
            let m = sv.data.ethereum_events.len();
            proof {
                assert(evs.take(0) =~= Seq::<EthereumEventV>::empty());
            }
            for j in 0..m
                invariant
                    m == sv.data.ethereum_events@.len(),
                    evs == vviews[i as int].data.ethereum_events,
                    av == vviews[i as int].data.validator_addr,
                    vviews == valid@.map_values(|x: SignedVext| x@),
                    vviews[i as int] == valid@[i as int]@,
                    i < valid@.len(),
                    sv == &valid@[i as int],
                    m == evs.len(),
                    groups@.map_values(|x: MultiSignedEthEvent| x@) == spec_add_events(
                        gs0,
                        evs.take(j as int),
                        av,
                    ),
            {
                let e = &sv.data.ethereum_events[j];
                let ghost gv = groups@.map_values(|x: MultiSignedEthEvent| x@);
                proof {
                    assert(e@ == evs[j as int]);
                    assert(evs.take(j + 1).drop_last() =~= evs.take(j as int));
                    assert(evs.take(j + 1).last() == evs[j as int]);
                }
                let mut found = false;
                let gl = groups.len();
                let mut gi: usize = 0;
                for g in 0..gl
                    invariant
                        gl == groups@.len(),
                        gv == groups@.map_values(|x: MultiSignedEthEvent| x@),
                        gi <= gl,
                        found ==> gi < gl && gv[gi as int].event == e@ && (forall|k: int|
                            0 <= k < gi ==> (#[trigger] gv[k]).event != e@),
                        !found ==> forall|k: int| 0 <= k < g ==> (#[trigger] gv[k]).event != e@,
                {
                    if !found && event_eq(&groups[g].event, e) {
                        found = true;
                        gi = g;
                        proof {
                            assert(gv[g as int].event == e@);
                        }
                    }
                }
                proof {
                    if found {
                        lemma_find_group_at(gv, e@, gi as int);
                    } else {
                        lemma_find_group_at(gv, e@, gv.len() as int);
                    }
                }
                if found {
                    let signer_there = addrs_contain(&groups[gi].signers, &sv.data.validator_addr);
                    proof {
                        assert(gv[gi as int].signers == groups@[gi as int]@.signers);
                        assert(signer_there == gv[gi as int].signers.contains(av));
                    }
                    if !signer_there {
                        let a = copy_address(&sv.data.validator_addr);
                        push_group_signer(&mut groups, gi, a);
                        proof {
                            assert(groups@.map_values(|x: MultiSignedEthEvent| x@) =~= gv.update(
                                gi as int,
                                MultiSignedEthEventV {
                                    event: e@,
                                    signers: add_signer(gv[gi as int].signers, av),
                                },
                            ));
                        }
                    } else {
                        proof {
                            assert(add_signer(gv[gi as int].signers, av) == gv[
                                gi as int].signers);
                            assert(gv.update(
                                gi as int,
                                MultiSignedEthEventV {
                                    event: e@,
                                    signers: add_signer(gv[gi as int].signers, av),
                                },
                            ) =~= gv);
                        }
                    }
                } else {
                    let mut signers: Vec<Address> = Vec::new();
                    signers.push(copy_address(&sv.data.validator_addr));
                    proof {
                        assert(signers@.map_values(|x: Address| x@) =~= seq![av]);
                    }
                    let new_group = MultiSignedEthEvent { event: copy_event(e), signers };
                    proof {
                        assert(new_group@ == (MultiSignedEthEventV {
                            event: e@,
                            signers: seq![av],
                        }));
                    }
                    groups.push(new_group);
                    proof {
                        assert forall|k: int| 0 <= k < groups@.len() implies (
                        #[trigger] groups@[k])@ == gv.push(
                            MultiSignedEthEventV { event: e@, signers: seq![av] },
                        )[k] by {
                            if k < groups@.len() - 1 {
                                assert(groups@[k]@ == gv[k]);
                            }
                        };
                        assert(groups@.map_values(|x: MultiSignedEthEvent| x@) =~= gv.push(
                            MultiSignedEthEventV { event: e@, signers: seq![av] },
                        ));
                    }
                }
                proof {
                    assert(groups@.map_values(|x: MultiSignedEthEvent| x@) == spec_add_event(
                        gv,
                        evs[j as int],
                        av,
                    ));
                }
            }
            proof {
                assert(evs.take(m as int) =~= evs);
                assert(vviews.take(i + 1).drop_last() =~= vviews.take(i as int));
                assert(vviews.take(i + 1).last() == vviews[i as int]);
                assert(groups@.map_values(|x: MultiSignedEthEvent| x@) == spec_groups(
                    vviews.take(i + 1),
                ));
            }
        }
        proof {
            assert(vviews.take(n as int) =~= vviews);
        }
        // retain only events whose signers reach the quorum
        let ghost all_groups = groups@.map_values(|x: MultiSignedEthEvent| x@);
        let mut events: Vec<MultiSignedEthEvent> = Vec::new();
        let gl = groups.len();
        proof {
            assert(all_groups.take(0) =~= Seq::<MultiSignedEthEventV>::empty());
            assert(events@.map_values(|x: MultiSignedEthEvent| x@) =~= spec_retained(
                self.validator_set@,
                all_groups.take(0),
            ));
        }
        for g in 0..gl
            invariant
                gl == groups@.len(),
                all_groups == groups@.map_values(|x: MultiSignedEthEvent| x@),
                spec_total_stake(self.validator_set@) <= u64::MAX,
                total == spec_total_stake(self.validator_set@),
                events@.map_values(|x: MultiSignedEthEvent| x@) == spec_retained(
                    self.validator_set@,
                    all_groups.take(g as int),
                ),
                forall|k: int| 0 <= k < events@.len() ==> quorum(
                    self.validator_set@,
                    (#[trigger] events@[k])@.signers,
                ),
        {
            let s = stake_sum_of_addrs(&self.validator_set, &groups[g].signers);
            proof {
                assert(all_groups.take(g + 1).drop_last() =~= all_groups.take(g as int));
                assert(all_groups.take(g + 1).last() == all_groups[g as int]);
                assert(groups@[g as int]@.signers == all_groups[g as int].signers);
            }
            // a sum beyond a third of the counter range certainly exceeds
            // two thirds of the total, which fits in 64 bits
            let hit = if s > u128::MAX / 3 {
                true
            } else {
                3 * s > 2 * (total as u128)
            };
            proof {
                assert(hit == quorum(self.validator_set@, all_groups[g as int].signers));
            }
            let ghost old_events = events@;
            if hit {
                let grp = copy_mse(&groups[g]);
                events.push(grp);
                proof {
                    assert(events@.map_values(|x: MultiSignedEthEvent| x@) =~= old_events
                        .map_values(|x: MultiSignedEthEvent| x@).push(all_groups[g as int]));
                }
            }
        }
        proof {
            assert(all_groups.take(gl as int) =~= all_groups);
        }
        let have_quorum = if voting > u128::MAX / 3 {
            true
        } else {
            3 * voting > 2 * (total as u128)
        };
        if have_quorum {
            let d = VextDigest { events, signatures: sigs };
            proof {
                assert(sig_addrs_v(d@.signatures) =~= sig_addrs(sigs@));
                assert(d@.events =~= events@.map_values(|m: MultiSignedEthEvent| m@));
                assert(forall|k: int| 0 <= k < d@.events.len() ==> quorum(
                    self.validator_set@,
                    (#[trigger] d@.events[k]).signers,
                )) by {
                    assert forall|k: int| 0 <= k < d@.events.len() implies quorum(
                        self.validator_set@,
                        (#[trigger] d@.events[k]).signers,
                    ) by {
                        assert(d@.events[k] == events@[k]@);
                        assert(quorum(self.validator_set@, events@[k]@.signers));
                    };
                };
            }
            Some(d)
        } else {
            None
        }
    }
}

/// The address views of a digest's signature entries.
pub open spec fn sig_addrs_v(sigs: Seq<(AddressV, Seq<u8>)>) -> Seq<AddressV> {
    sigs.map_values(|e: (AddressV, Seq<u8>)| e.0)
}

/// Appends a signer to one group of a group list.
fn push_group_signer(groups: &mut Vec<MultiSignedEthEvent>, gi: usize, a: Address)
    requires
        gi < old(groups)@.len(),
    ensures
        final(groups)@.len() == old(groups)@.len(),
        final(groups)@.map_values(|m: MultiSignedEthEvent| m@) == old(groups)@.map_values(
            |m: MultiSignedEthEvent| m@,
        ).update(
            gi as int,
            MultiSignedEthEventV {
                event: old(groups)@[gi as int]@.event,
                signers: old(groups)@[gi as int]@.signers.push(a@),
            },
        ),
{
    let ghost before = groups@;
    let mut grp = groups.remove(gi);
    let ghost gv = grp@;
    proof {
        assert(gv == before[gi as int]@);
    }
    grp.signers.push(a);
    proof {
        assert(grp@.signers =~= gv.signers.push(a@));
        assert(grp@ == (MultiSignedEthEventV { event: gv.event, signers: gv.signers.push(a@) }));
    }
    groups.insert(gi, grp);
    proof {
        assert forall|k: int| 0 <= k < groups@.len() implies (#[trigger] groups@[k])@ == before
            .map_values(|m: MultiSignedEthEvent| m@).update(
            gi as int,
            MultiSignedEthEventV { event: gv.event, signers: gv.signers.push(a@) },
        )[k] by {
            if k < gi {
                assert(groups@[k] == before[k]);
            } else if k == gi {
            } else {
                assert(groups@[k] == before.remove(gi as int).insert(gi as int, grp)[k]);
                assert(groups@[k] == before[k]);
            }
        };
        assert(groups@.map_values(|m: MultiSignedEthEvent| m@) =~= before.map_values(
            |m: MultiSignedEthEvent| m@,
        ).update(
            gi as int,
            MultiSignedEthEventV { event: gv.event, signers: gv.signers.push(a@) },
        ));
    }
}

/// Copies a multi-signed event.
pub fn copy_mse(m: &MultiSignedEthEvent) -> (r: MultiSignedEthEvent)
    ensures
        r@ == m@,
{
    let mut signers: Vec<Address> = Vec::new();
    let n = m.signers.len();
    for i in 0..n
        invariant
            n == m.signers@.len(),
            signers@.len() == i,
            forall|k: int| 0 <= k < i ==> (#[trigger] signers@[k])@ == m.signers@[k]@,
    {
        signers.push(copy_address(&m.signers[i]));
    }
    let r = MultiSignedEthEvent { event: copy_event(&m.event), signers };
    proof {
        assert(r@.signers =~= m@.signers);
    }
    r
}


/// Whether mempool bytes decode to a transaction that classifies as a
/// valid wrapper.
pub open spec fn mempool_keep(b: Seq<u8>) -> bool {
    &&& crate::transaction::sdec_tx_full(b) is Some
    &&& (process_tx_spec(crate::transaction::sdec_tx_full(b)->Some_0) matches Ok(tt)
        && tt is Wrapper)
}

/// What a proposer does with one mempool transaction: wrappers are kept,
/// everything else is removed.
pub open spec fn mempool_record_ok(b: Seq<u8>, rec: TxRecord) -> bool {
    &&& rec.tx@ == b
    &&& rec.action == (if mempool_keep(b) {
        TxAction::Unmodified
    } else {
        TxAction::Removed
    })
}

/// The decrypted counterpart of a queued wrapper: its revealed payload, or
/// an undecryptable marker when the payload does not match its commitment.
pub open spec fn decrypt_outcome(w: WrapperTxV) -> DecryptedTxV {
    if crate::crypto::sha256_of(w.inner_tx) == w.tx_hash && crate::transaction::sdec_tx_full(
        w.inner_tx,
    ) is Some {
        DecryptedTxV::Decrypted(crate::transaction::sdec_tx_full(w.inner_tx)->Some_0)
    } else {
        DecryptedTxV::Undecryptable(w)
    }
}

/// What a proposer adds for one queued wrapper: a fresh transaction whose
/// data carries exactly the wrapper's decrypted counterpart.
pub open spec fn decrypted_record_ok(w: WrapperTxV, rec: TxRecord) -> bool {
    &&& rec.action == TxAction::Added
    &&& exists|ts: (u64, u64)|
        #![auto]
        ts.1 < 1_000_000_000 && rec.tx@ == enc_tx(
            TxV {
                code: TxCodeV::Literal(Seq::empty()),
                data: Some(enc_txtype(TxTypeV::Decrypted(decrypt_outcome(w)))),
                timestamp: ts,
                inner_tx: None,
                inner_tx_code: None,
            },
        )
}

/// What a proposer adds for the previous block's vote extensions: a fresh
/// transaction signed with its protocol key whose payload carries the
/// digest.
pub open spec fn protocol_record_ok(sk: Seq<u8>, d: VextDigestV, rec: TxRecord) -> bool {
    &&& rec.action == TxAction::Added
    &&& exists|ts: (u64, u64)|
        #![auto]
        ts.1 < 1_000_000_000 && rec.tx@ == enc_tx(
            Tx::signed_with(
                TxV {
                    code: TxCodeV::Literal(Seq::empty()),
                    data: Some(
                        enc_txtype(
                            TxTypeV::Protocol(ProtocolTxV { pk: ed_pubkey(sk), digest: d }),
                        ),
                    ),
                    timestamp: ts,
                    inner_tx: None,
                    inner_tx_code: None,
                },
                sk,
            ),
        )
}

/// The smaller of two numbers.
pub open spec fn spec_min(a: int, b: int) -> int {
    if a <= b {
        a
    } else {
        b
    }
}

impl ShellState {
    /// Filters a batch of mempool transactions: at most half of them plus
    /// one are considered, valid wrappers are kept, everything else is
    /// removed.
    pub fn build_mempool_txs(&self, txs: &Vec<Vec<u8>>) -> (r: Vec<TxRecord>)
        ensures
            r@.len() == spec_min((1 + txs@.len() / 2) as int, txs@.len() as int),
            forall|i: int| 0 <= i < r@.len() ==> mempool_record_ok(txs@[i]@, #[trigger] r@[i]),
    {
        let number_of_new_txs: usize = 1 + txs.len() / 2;
        let count = if number_of_new_txs <= txs.len() {
            number_of_new_txs
        } else {
            txs.len()
        };
        let mut out: Vec<TxRecord> = Vec::new();
        for i in 0..count
            invariant
                count == spec_min((1 + txs@.len() / 2) as int, txs@.len() as int),
                count <= txs@.len(),
                out@.len() == i,
                forall|k: int| 0 <= k < i ==> mempool_record_ok(txs@[k]@, #[trigger] out@[k]),
        {
            let bytes = copy_bytes(&txs[i]);
            let is_wrapper = match Tx::try_from_bytes(&bytes) {
                Ok(tx) => {
                    match process_tx(&tx) {
                        Ok(TxType::Wrapper(_w)) => true,
                        _ => false,
                    }
                },
                Err(_e) => false,
            };
            if is_wrapper {
                out.push(keep(bytes));
            } else {
                out.push(remove(bytes));
            }
        }
        out
    }

    /// Replays the queue as decrypted transactions, in queue order: each
    /// queued wrapper contributes exactly one decrypted-or-undecryptable
    /// counterpart at the same relative position.
    pub fn build_decrypted_txs(&self) -> (r: Vec<TxRecord>)
        ensures
            r@.len() == self.tx_queue@.len(),
            forall|i: int| 0 <= i < r@.len() ==> decrypted_record_ok(
                self.tx_queue@[i],
                #[trigger] r@[i],
            ),
    {
        let mut out: Vec<TxRecord> = Vec::new();
        let n = self.tx_queue.len();
        for i in 0..n
            invariant
                n == self.tx_queue@.len(),
                out@.len() == i,
                forall|k: int| 0 <= k < i ==> decrypted_record_ok(
                    self.tx_queue@[k],
                    #[trigger] out@[k],
                ),
        {
            let w = self.tx_queue.get(i);
            let d = match w.decrypt() {
                Some(tx) => DecryptedTx::Decrypted(tx),
                None => DecryptedTx::Undecryptable(w),
            };
            proof {
                assert(d@ == decrypt_outcome(self.tx_queue@[i as int]));
            }
            let payload = TxType::Decrypted(d).encode();
            let outer = Tx::new(Vec::new(), Some(payload));
            let ghost ts = outer@.timestamp;
            let bytes = outer.to_bytes();
            let rec = crate::shell::add(bytes);
            proof {
                assert(Seq::<u8>::empty() =~= outer@.code->Literal_0);
                assert(rec.tx@ == enc_tx(
                    TxV {
                        code: TxCodeV::Literal(Seq::empty()),
                        data: Some(
                            enc_txtype(
                                TxTypeV::Decrypted(decrypt_outcome(self.tx_queue@[i as int])),
                            ),
                        ),
                        timestamp: ts,
                        inner_tx: None,
                        inner_tx_code: None,
                    },
                ));
            }
            out.push(rec);
        }
        out
    }

    /// Builds a proposal: the previous block's aggregated vote extensions
    /// first, then at most half of the mempool (wrappers only), then the
    /// decrypted counterpart of every queued wrapper, in queue order. A
    /// non-validator proposes nothing. Vote extensions below the quorum
    /// are a fatal, typed error: the node refuses to propose.
    pub fn prepare_proposal(&self, txs: &Vec<Vec<u8>>, local_last_commit: Option<Vec<SignedVext>>)
        -> (r: Result<Vec<TxRecord>, PrepareError>)
        requires
            self.wf(),
        ensures
            self.protocol_sk is None ==> (r matches Ok(recs) && recs@.len() == 0),
            (self.protocol_sk is Some && self.last_height != 0 && local_last_commit is None)
                ==> r == Err::<Vec<TxRecord>, PrepareError>(PrepareError::MissingVoteExtensions),
            (self.protocol_sk is Some && self.last_height != 0 && local_last_commit is Some
                && !self.vext_quorum(
                (local_last_commit->Some_0)@.map_values(|sv: SignedVext| sv@),
            )) ==> r == Err::<Vec<TxRecord>, PrepareError>(PrepareError::QuorumNotReached),
            (self.protocol_sk is Some && (self.last_height == 0 || (local_last_commit is Some
                && self.vext_quorum(
                (local_last_commit->Some_0)@.map_values(|sv: SignedVext| sv@),
            )))) ==> r is Ok,
            (self.protocol_sk is Some && (self.protocol_sk->Some_0)@.len() == 32 && r is Ok)
                ==> ({
                let sk = (self.protocol_sk->Some_0)@;
                let recs = (r->Ok_0)@;
                let vn: int = if self.last_height == 0 {
                    0int
                } else {
                    1int
                };
                let mc: int = spec_min((1 + txs@.len() / 2) as int, txs@.len() as int);
                let ql: int = self.tx_queue@.len() as int;
                &&& recs.len() == vn + mc + ql
                &&& (self.last_height != 0 ==> exists|d: VextDigestV|
                    #![auto]
                    digest_quorum_ok(self.validator_set@, d) && protocol_record_ok(
                        sk,
                        d,
                        recs[0],
                    ))
                &&& forall|i: int| 0 <= i < mc ==> mempool_record_ok(
                    txs@[i]@,
                    #[trigger] recs[vn + i],
                )
                &&& forall|i: int| 0 <= i < ql ==> decrypted_record_ok(
                    self.tx_queue@[i],
                    #[trigger] recs[vn + mc + i],
                )
            }),
    {
        let sk = match &self.protocol_sk {
            None => {
                let empty: Vec<TxRecord> = Vec::new();
                return Ok(empty);
            },
            Some(sk) => sk,
        };
        let mut recs: Vec<TxRecord> = Vec::new();
        if self.last_height != 0 {
            let exts = match local_last_commit {
                Some(e) => e,
                None => {
                    return Err(PrepareError::MissingVoteExtensions);
                },
            };
            let digest = match self.compress_ethereum_events(exts) {
                Some(d) => d,
                None => {
                    return Err(PrepareError::QuorumNotReached);
                },
            };
            let ghost dv = digest@;
            let pk = ed_pubkey_bytes(sk);
            let ptx = TxType::Protocol(ProtocolTx { pk, digest });
            let payload = ptx.encode();
            let outer = Tx::new(Vec::new(), Some(payload));
            let ghost ts = outer@.timestamp;
            let signed_tx = outer.sign(sk);
            let bytes = signed_tx.to_bytes();
            let rec = crate::shell::add(bytes);
            proof {
                assert(Seq::<u8>::empty() =~= outer@.code->Literal_0);
                assert(rec.tx@ == enc_tx(
                    Tx::signed_with(
                        TxV {
                            code: TxCodeV::Literal(Seq::empty()),
                            data: Some(
                                enc_txtype(
                                    TxTypeV::Protocol(
                                        ProtocolTxV { pk: ed_pubkey(sk@), digest: dv },
                                    ),
                                ),
                            ),
                            timestamp: ts,
                            inner_tx: None,
                            inner_tx_code: None,
                        },
                        sk@,
                    ),
                ));
                assert(protocol_record_ok(sk@, dv, rec));
            }
            recs.push(rec);
        }
        let ghost vn = recs@.len() as int;
        let mut mempool = self.build_mempool_txs(txs);
        let ghost mrecs = mempool@;
        recs.append(&mut mempool);
        let ghost mc = mrecs.len() as int;
        let mut dec = self.build_decrypted_txs();
        let ghost drecs = dec@;
        recs.append(&mut dec);
        proof {
            assert(forall|i: int| 0 <= i < mc ==> recs@[vn + i] == mrecs[i]);
            assert(forall|i: int| 0 <= i < drecs.len() ==> recs@[vn + mc + i] == drecs[i]);
        }
        Ok(recs)
    }
}

} // verus!
