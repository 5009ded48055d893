//! Governance tallying and execution at epoch boundaries.
//!
//! For every proposal whose voting window has closed, the stake-weighted
//! tally is computed once, exactly one `Proposal` event is emitted, and the
//! locked funds move to the author (passed) or to the slash fund
//! (rejected or failed).

use vstd::prelude::*;
use vstd::string::StringExecFns;
use crate::address::{Address, AddressV, enc_address, InternalAddress};
use crate::voting::{WeightedValidator, FractionalVotingPower, spec_total_stake, spec_stake_of,
    sum_voting_powers, stake_lookup};
use crate::storage::{Store, spec_get};
use crate::bytes::{enc_le, enc_bytes, dec_le, write_u64, read_u64,
    write_bytes, read_list};
use crate::vote_ext::decode_sig_entries;
use crate::strutil::{u64_to_string, spec_u64_chars};

verus! {

/// A structured ledger event.
#[derive(Clone, Debug)]
pub struct Event {
    /// The event type.
    pub event_type: String,
    /// The level the event was emitted at.
    pub level: String,
    /// The event's attributes, in emission order.
    pub attributes: Vec<(String, String)>,
}

/// The mathematical value of an event.
pub struct EventV {
    pub event_type: Seq<char>,
    pub level: Seq<char>,
    pub attributes: Seq<(Seq<char>, Seq<char>)>,
}

impl View for Event {
    type V = EventV;

    open spec fn view(&self) -> EventV {
        EventV {
            event_type: self.event_type@,
            level: self.level@,
            attributes: self.attributes@.map_values(|a: (String, String)| (a.0@, a.1@)),
        }
    }
}

/// Whether two events are equal.
pub fn event_value_eq(a: &Event, b: &Event) -> (r: bool)
    ensures
        r <==> a@ == b@,
{
    if !(a.event_type == b.event_type && a.level == b.level) {
        return false;
    }
    if a.attributes.len() != b.attributes.len() {
        proof {
            assert(a@.attributes.len() != b@.attributes.len());
        }
        return false;
    }
    let n = a.attributes.len();
    for i in 0..n
        invariant
            n == a.attributes@.len() && n == b.attributes@.len(),
            forall|k: int| 0 <= k < i ==> a@.attributes[k] == b@.attributes[k],
    {
        if !(a.attributes[i].0 == b.attributes[i].0 && a.attributes[i].1 == b.attributes[i].1) {
            proof {
                assert(a@.attributes[i as int] == (a.attributes@[i as int].0@, a.attributes@[
                    i as int].1@));
                assert(b@.attributes[i as int] == (b.attributes@[i as int].0@, b.attributes@[
                    i as int].1@));
            }
            return false;
        }
        proof {
            assert(a@.attributes[i as int] == (a.attributes@[i as int].0@, a.attributes@[
                i as int].1@));
            assert(b@.attributes[i as int] == (b.attributes@[i as int].0@, b.attributes@[
                i as int].1@));
        }
    }
    proof {
        assert(a@.attributes =~= b@.attributes);
    }
    true
}

/// The outcome of a governance tally.
#[derive(Clone, Copy, Debug, PartialEq, Eq, Structural)]
pub enum TallyResult {
    /// More stake voted for than against, under a met quorum.
    Passed,
    /// The proposal did not gather the required stake.
    Rejected,
    /// A mandatory field of the proposal could not be read.
    Failed,
}

/// The ids of the proposals that passed and that were rejected.
pub struct ProposalsResult {
    pub passed: Vec<u64>,
    pub rejected: Vec<u64>,
}

/// The storage key of a governance field: a tag and the proposal id.
pub open spec fn spec_gov_key(tag: u8, id: u64) -> Seq<u8> {
    seq![tag] + enc_le(id as nat, 8)
}

/// Builds the storage key of a governance field.
pub fn gov_key(tag: u8, id: u64) -> (r: Vec<u8>)
    ensures
        r@ == spec_gov_key(tag, id),
{
    let mut out: Vec<u8> = Vec::new();
    out.push(tag);
    write_u64(&mut out, id);
    proof {
        assert(out@ =~= spec_gov_key(tag, id));
    }
    out
}

/// The tag of the locked-funds field.
pub const GOV_FUNDS: u8 = 1;

/// The tag of the voting-end-epoch field.
pub const GOV_END_EPOCH: u8 = 2;

/// The tag of the author field.
pub const GOV_AUTHOR: u8 = 3;

/// The tag of the attached-code field.
pub const GOV_CODE: u8 = 4;

/// The tag of the votes field.
pub const GOV_VOTES: u8 = 5;

/// The tag of the transient execution-lock field.
pub const GOV_EXEC_LOCK: u8 = 6;

/// The storage key of an account's balance of a token.
pub open spec fn spec_balance_key(token: AddressV, owner: AddressV) -> Seq<u8> {
    seq![7u8] + enc_bytes(enc_address(token)) + enc_bytes(enc_address(owner))
}

/// Builds the storage key of an account's balance of a token.
pub fn balance_key(token: &Address, owner: &Address) -> (r: Vec<u8>)
    ensures
        r@ == spec_balance_key(token@, owner@),
{
    let mut out: Vec<u8> = Vec::new();
    out.push(7u8);
    let tb = token.encode();
    write_bytes(&mut out, &tb);
    let ob = owner.encode();
    write_bytes(&mut out, &ob);
    proof {
        assert(out@ =~= spec_balance_key(token@, owner@));
    }
    out
}

/// The number a stored 8-byte value denotes; anything else denotes zero.
pub open spec fn spec_read_amount(entries: Seq<(Vec<u8>, Vec<u8>)>, k: Seq<u8>) -> int {
    match spec_get(entries, k) {
        None => 0int,
        Some(b) => if b.len() == 8 {
            dec_le(b) as int
        } else {
            0int
        },
    }
}

/// Reads an amount stored under a key; an absent or malformed value reads
/// as zero.
pub fn read_amount(store: &Store, k: &Vec<u8>) -> (r: u64)
    ensures
        r == spec_read_amount(store.entries@, k@),
{
    match store.read(k) {
        None => 0u64,
        Some(b) => {
            if b.len() != 8 {
                return 0u64;
            }
            let mut pos: usize = 0;
            let r = match read_u64(&b, &mut pos) {
                Some(v) => v,
                None => 0u64,
            };
            proof {
                assert(b@.subrange(0, 8) =~= b@);
                crate::bytes::lemma_dec_le_bound(b@);
                crate::bytes::lemma_pow256_8();
            }
            r
        },
    }
}

/// Writes an amount under a key.
pub fn write_amount(store: &mut Store, k: &Vec<u8>, v: u64)
    requires
        old(store).wf(),
    ensures
        final(store).wf(),
        spec_read_amount(final(store).entries@, k@) == v,
        forall|k2: Seq<u8>| k2 != k@ ==> final(store).get(k2) == old(store).get(k2),
{
    let mut b: Vec<u8> = Vec::new();
    write_u64(&mut b, v);
    proof {
        crate::bytes::lemma_enc_le_len(v as nat, 8);
        crate::bytes::lemma_pow256_8();
        crate::bytes::lemma_dec_enc_le(v as nat, 8);
    }
    store.write(k, b);
}

/// Moves an amount of a token between accounts: at most the source's
/// balance moves, and the destination saturates at the counter range.
pub fn transfer(store: &mut Store, token: &Address, amount: u64, src: &Address, dst: &Address)
    requires
        old(store).wf(),
        src@ != dst@,
        crate::address::wf_address(src@),
        crate::address::wf_address(dst@),
    ensures
        final(store).wf(),
        ({
            let sk = spec_balance_key(token@, src@);
            let dk = spec_balance_key(token@, dst@);
            let sb = spec_read_amount(old(store).entries@, sk);
            let db = spec_read_amount(old(store).entries@, dk);
            let moved = if sb < amount {
                sb
            } else {
                amount as int
            };
            &&& spec_read_amount(final(store).entries@, sk) == sb - moved
            &&& spec_read_amount(final(store).entries@, dk) == (if db + moved > u64::MAX {
                u64::MAX as int
            } else {
                db + moved
            })
            &&& forall|k2: Seq<u8>| k2 != sk && k2 != dk ==> final(store).get(k2) == old(
                store,
            ).get(k2)
        }),
{
    let sk = balance_key(token, src);
    let dk = balance_key(token, dst);
    proof {
        lemma_balance_key_injective(token@, src@, dst@);
        assert(sk@ != dk@);
    }
    let sb = read_amount(store, &sk);
    let db = read_amount(store, &dk);
    let moved = if sb < amount {
        sb
    } else {
        amount
    };
    write_amount(store, &sk, sb - moved);
    proof {
        assert(store.get(dk@) == old(store).get(dk@));
        assert(spec_read_amount(store.entries@, dk@) == db as int);
    }
    let ghost mid = *store;
    let new_db = if db > u64::MAX - moved {
        u64::MAX
    } else {
        db + moved
    };
    write_amount(store, &dk, new_db);
    proof {
        assert(store.get(sk@) == mid.get(sk@));
        assert(spec_read_amount(store.entries@, sk@) == sb - moved);
        assert forall|k2: Seq<u8>| k2 != sk@ && k2 != dk@ implies store.get(k2) == old(
            store,
        ).get(k2) by {
            assert(store.get(k2) == mid.get(k2));
            assert(mid.get(k2) == old(store).get(k2));
        };
    }
}

/// Distinct owners give distinct balance keys.
pub proof fn lemma_balance_key_injective(token: AddressV, a: AddressV, b: AddressV)
    requires
        a != b,
        crate::address::wf_address(a),
        crate::address::wf_address(b),
    ensures
        spec_balance_key(token, a) != spec_balance_key(token, b),
{
    let ka = spec_balance_key(token, a);
    let kb = spec_balance_key(token, b);
    if ka == kb {
        let tb = enc_bytes(enc_address(token));
        assert(ka.skip(1) =~= tb + enc_bytes(enc_address(a)));
        assert(kb.skip(1) =~= tb + enc_bytes(enc_address(b)));
        assert(enc_bytes(enc_address(a)) =~= ka.skip(1).skip(tb.len() as int));
        assert(enc_bytes(enc_address(b)) =~= kb.skip(1).skip(tb.len() as int));
        crate::address::lemma_address_enc_len(a);
        crate::address::lemma_address_enc_len(b);
        crate::bytes::lemma_pow256_8();
        crate::bytes::lemma_enc_bytes_prefix(
            enc_address(a),
            enc_address(b),
            Seq::<u8>::empty(),
            Seq::<u8>::empty(),
        );
        crate::address::lemma_enc_address_injective(a, b);
    }
}


/// The stake that voted for a proposal.
pub open spec fn spec_yay_stake(vs: Seq<WeightedValidator>, votes: Seq<(AddressV, Seq<u8>)>) -> int
    decreases votes.len(),
{
    if votes.len() == 0 {
        0int
    } else {
        (if votes[0].1 == seq![1u8] {
            spec_stake_of(vs, votes[0].0)
        } else {
            0int
        }) + spec_yay_stake(vs, votes.drop_first())
    }
}

/// The stake that voted against a proposal.
pub open spec fn spec_nay_stake(vs: Seq<WeightedValidator>, votes: Seq<(AddressV, Seq<u8>)>) -> int
    decreases votes.len(),
{
    if votes.len() == 0 {
        0int
    } else {
        (if votes[0].1 == seq![1u8] {
            0int
        } else {
            spec_stake_of(vs, votes[0].0)
        }) + spec_nay_stake(vs, votes.drop_first())
    }
}

/// Whether a proposal passes: strictly more stake for than against, and
/// the participating stake meets the quorum threshold of the total. Equal
/// stakes reject.
pub open spec fn spec_passed(
    vs: Seq<WeightedValidator>,
    th: FractionalVotingPower,
    votes: Seq<(AddressV, Seq<u8>)>,
) -> bool {
    let yay = spec_yay_stake(vs, votes);
    let nay = spec_nay_stake(vs, votes);
    &&& yay > nay
    &&& (yay + nay) * th.spec_den() >= spec_total_stake(vs) * th.spec_num()
}

/// Computes the stake-weighted tally of a proposal's votes.
pub fn compute_tally(
    vs: &Vec<WeightedValidator>,
    th: &FractionalVotingPower,
    votes: &Vec<(Address, Vec<u8>)>,
) -> (r: bool)
    requires
        spec_total_stake(vs@) <= u64::MAX,
        th.wf(),
    ensures
        r == spec_passed(vs@, *th, votes@.map_values(|v: (Address, Vec<u8>)| (v.0@, v.1@))),
{
    let ghost vv = votes@.map_values(|v: (Address, Vec<u8>)| (v.0@, v.1@));
    let mut yay: u128 = 0;
    let mut nay: u128 = 0;
    let n = votes.len();
    proof {
        assert(vv.skip(0) =~= vv);
    }
    for i in 0..n
        invariant
            n == votes@.len(),
            vv == votes@.map_values(|v: (Address, Vec<u8>)| (v.0@, v.1@)),
            yay + spec_yay_stake(vs@, vv.skip(i as int)) == spec_yay_stake(vs@, vv),
            nay + spec_nay_stake(vs@, vv.skip(i as int)) == spec_nay_stake(vs@, vv),
            yay + nay <= i * 0xFFFFFFFFFFFFFFFF,
    {
        proof {
            assert(vv.skip(i as int)[0] == vv[i as int]);
            assert(vv.skip(i as int).drop_first() =~= vv.skip(i + 1));
            assert(vv[i as int] == (votes@[i as int].0@, votes@[i as int].1@));
            lemma_yay_nonneg(vs@, vv.skip(i + 1));
            lemma_nay_nonneg(vs@, vv.skip(i + 1));
            assert((i + 1) * 0xFFFFFFFFFFFFFFFF == i * 0xFFFFFFFFFFFFFFFF + 0xFFFFFFFFFFFFFFFF)
                by (nonlinear_arith)
            ;
            assert(i * 0xFFFFFFFFFFFFFFFF <= (n - 1) * 0xFFFFFFFFFFFFFFFF) by (nonlinear_arith)
                requires
                    0 <= i <= n - 1,
            ;
            assert((n - 1) * 0xFFFFFFFFFFFFFFFF + 0xFFFFFFFFFFFFFFFF <= u128::MAX)
                by (nonlinear_arith)
                requires
                    n <= 0xFFFFFFFFFFFFFFFF,
            ;
        }
        let stake: u64 = match stake_lookup(vs, &votes[i].0) {
            Some(s) => s,
            None => 0u64,
        };
        let is_yay = votes[i].1.len() == 1 && votes[i].1[0] == 1u8;
        proof {
            if is_yay {
                assert(votes@[i as int].1@ =~= seq![1u8]);
            } else {
                if votes@[i as int].1@ == seq![1u8] {
                    assert(votes@[i as int].1@.len() == 1 && votes@[i as int].1@[0] == 1u8);
                }
            }
        }
        if is_yay {
            yay = yay + (stake as u128);
        } else {
            nay = nay + (stake as u128);
        }
    }
    proof {
        assert(vv.skip(n as int) =~= Seq::<(AddressV, Seq<u8>)>::empty());
    }
    let total = sum_voting_powers(vs);
    if yay <= nay {
        return false;
    }
    let participating = yay + nay;
    if participating >= total as u128 {
        proof {
            assert((yay + nay) * th.spec_den() >= spec_total_stake(vs@) * th.spec_num())
                by (nonlinear_arith)
                requires
                    yay + nay >= spec_total_stake(vs@),
                    spec_total_stake(vs@) >= 0,
                    th.spec_num() <= th.spec_den(),
                    th.spec_den() > 0,
            ;
        }
        true
    } else {
        proof {
            assert(participating * th.spec_den() <= 0xFFFFFFFFFFFFFFFF * 0xFFFFFFFFFFFFFFFF)
                by (nonlinear_arith)
                requires
                    0 <= participating < 0x10000000000000000,
                    0 <= th.spec_den() <= 0xFFFFFFFFFFFFFFFF,
            ;
            assert((total as int) * th.spec_num() <= 0xFFFFFFFFFFFFFFFF * 0xFFFFFFFFFFFFFFFF)
                by (nonlinear_arith)
                requires
                    0 <= total <= 0xFFFFFFFFFFFFFFFF,
                    0 <= th.spec_num() <= 0xFFFFFFFFFFFFFFFF,
            ;
        }
        let lhs: u128 = participating * (th.den() as u128);
        let rhs: u128 = (total as u128) * (th.num() as u128);
        lhs >= rhs
    }
}

/// Stake tallies are never negative.
pub proof fn lemma_yay_nonneg(vs: Seq<WeightedValidator>, votes: Seq<(AddressV, Seq<u8>)>)
    ensures
        spec_yay_stake(vs, votes) >= 0,
    decreases votes.len(),
{
    if votes.len() > 0 {
        lemma_yay_nonneg(vs, votes.drop_first());
    }
}

/// Stake tallies are never negative.
pub proof fn lemma_nay_nonneg(vs: Seq<WeightedValidator>, votes: Seq<(AddressV, Seq<u8>)>)
    ensures
        spec_nay_stake(vs, votes) >= 0,
    decreases votes.len(),
{
    if votes.len() > 0 {
        lemma_nay_nonneg(vs, votes.drop_first());
    }
}

/// What one closed proposal comes to: failed on a missing or unreadable
/// mandatory field, rejected by the tally, or passed with the attached
/// code (if any) accepted or rejected by the outside engine.
#[derive(Clone, Copy, Debug, PartialEq, Eq, Structural)]
pub enum GovOutcome {
    /// A mandatory field is absent or unreadable.
    Failed,
    /// The tally did not pass.
    Rejected,
    /// Passed, with no attached code.
    PassedNoCode,
    /// Passed, and the attached code was accepted.
    PassedAccepted,
    /// Passed, but the attached code was rejected.
    PassedCodeRejected,
}

/// The votes stored for a proposal: absent means no votes; stored bytes
/// that do not decode as a vote list are unreadable.
#[verifier::opaque]
pub open spec fn spec_votes_of(entries: Seq<(Vec<u8>, Vec<u8>)>, id: u64) -> Option<
    Seq<(AddressV, Seq<u8>)>,
> {
    match spec_get(entries, spec_gov_key(GOV_VOTES, id)) {
        None => Some(Seq::empty()),
        Some(b) => if crate::bytes::sdec_list(b) is Some {
            let (items, j) = crate::bytes::sdec_list(b)->Some_0;
            if j == b.len() && crate::vote_ext::sdec_sig_entries(items) is Some {
                Some(crate::vote_ext::sdec_sig_entries(items)->Some_0)
            } else {
                None
            }
        } else {
            None
        },
    }
}

/// The author stored for a proposal, if present, well formed and readable.
#[verifier::opaque]
pub open spec fn spec_author_of(entries: Seq<(Vec<u8>, Vec<u8>)>, id: u64) -> Option<AddressV> {
    match spec_get(entries, spec_gov_key(GOV_AUTHOR, id)) {
        None => None,
        Some(b) => match crate::address::sdec_address(b) {
            None => None,
            Some(a) => if crate::address::wf_address(a) {
                Some(a)
            } else {
                None
            },
        },
    }
}

/// The outcome of one proposal, read off the store: a missing funds,
/// end-epoch or (for a passed proposal) author field fails it; otherwise
/// the stake-weighted tally and the outside engine's code verdict decide.
#[verifier::opaque]
pub open spec fn spec_outcome(
    entries: Seq<(Vec<u8>, Vec<u8>)>,
    vs: Seq<WeightedValidator>,
    th: FractionalVotingPower,
    crs: Seq<(u64, bool)>,
    id: u64,
) -> GovOutcome {
    if spec_get(entries, spec_gov_key(GOV_FUNDS, id)) is None || spec_get(
        entries,
        spec_gov_key(GOV_END_EPOCH, id),
    ) is None {
        GovOutcome::Failed
    } else {
        match spec_votes_of(entries, id) {
            None => GovOutcome::Failed,
            Some(votes) => {
                if !spec_passed(vs, th, votes) {
                    GovOutcome::Rejected
                } else {
                    match spec_author_of(entries, id) {
                        None => GovOutcome::Failed,
                        Some(_a) => {
                            if spec_get(entries, spec_gov_key(GOV_CODE, id)) is Some {
                                if spec_code_result(crs, id) {
                                    GovOutcome::PassedAccepted
                                } else {
                                    GovOutcome::PassedCodeRejected
                                }
                            } else {
                                GovOutcome::PassedNoCode
                            }
                        },
                    }
                }
            },
        }
    }
}

/// The tally an outcome reports.
pub open spec fn outcome_tally(o: GovOutcome) -> TallyResult {
    match o {
        GovOutcome::Failed => TallyResult::Failed,
        GovOutcome::Rejected => TallyResult::Rejected,
        GovOutcome::PassedNoCode => TallyResult::Passed,
        GovOutcome::PassedAccepted => TallyResult::Passed,
        GovOutcome::PassedCodeRejected => TallyResult::Passed,
    }
}

/// Whether an outcome lists the proposal as passed.
pub open spec fn outcome_passed(o: GovOutcome) -> bool {
    o == GovOutcome::PassedAccepted || o == GovOutcome::PassedNoCode
}

/// Whether an outcome lists the proposal as rejected.
pub open spec fn outcome_rejected(o: GovOutcome) -> bool {
    o == GovOutcome::Rejected || o == GovOutcome::PassedCodeRejected
}

/// The display characters of a tally result.
pub open spec fn tally_chars(t: TallyResult) -> Seq<char> {
    match t {
        TallyResult::Passed => "Passed"@,
        TallyResult::Rejected => "Rejected"@,
        TallyResult::Failed => "Failed"@,
    }
}

/// The one `Proposal` event an outcome emits: the id in decimal, whether
/// code was attached, the tally, and the code's exit status (vacuously
/// successful where no code ran).
pub open spec fn spec_event_of(id: u64, o: GovOutcome) -> EventV {
    EventV {
        event_type: "Proposal"@,
        level: "Block"@,
        attributes: seq![
            ("proposal_id"@, spec_u64_chars(id as nat)),
            (
                "has_proposal_code"@,
                if o == GovOutcome::PassedNoCode {
                    "0"@
                } else {
                    "1"@
                },
            ),
            ("tally_result"@, tally_chars(outcome_tally(o))),
            (
                "proposal_code_exit_status"@,
                if o == GovOutcome::PassedCodeRejected {
                    "0"@
                } else {
                    "1"@
                },
            ),
        ],
    }
}

/// The display label of a tally result.
pub fn tally_label(t: TallyResult) -> (r: String)
    ensures
        r@ == tally_chars(t),
{
    match t {
        TallyResult::Passed => String::from_str("Passed"),
        TallyResult::Rejected => String::from_str("Rejected"),
        TallyResult::Failed => String::from_str("Failed"),
    }
}

/// Builds the one `Proposal` event of a proposal's outcome.
pub fn proposal_event(id: u64, o: GovOutcome) -> (r: Event)
    ensures
        r@ == spec_event_of(id, o),
{
    let mut attributes: Vec<(String, String)> = Vec::new();
    attributes.push((String::from_str("proposal_id"), u64_to_string(id)));
    attributes.push((
        String::from_str("has_proposal_code"),
        String::from_str(
            if matches!(o, GovOutcome::PassedNoCode) {
                "0"
            } else {
                "1"
            },
        ),
    ));
    let tally = match o {
        GovOutcome::Failed => TallyResult::Failed,
        GovOutcome::Rejected => TallyResult::Rejected,
        GovOutcome::PassedNoCode => TallyResult::Passed,
        GovOutcome::PassedAccepted => TallyResult::Passed,
        GovOutcome::PassedCodeRejected => TallyResult::Passed,
    };
    attributes.push((String::from_str("tally_result"), tally_label(tally)));
    attributes.push((
        String::from_str("proposal_code_exit_status"),
        String::from_str(
            if matches!(o, GovOutcome::PassedCodeRejected) {
                "0"
            } else {
                "1"
            },
        ),
    ));
    let r = Event {
        event_type: String::from_str("Proposal"),
        level: String::from_str("Block"),
        attributes,
    };
    proof {
        assert(r@.attributes[0] == (r.attributes@[0].0@, r.attributes@[0].1@));
        assert(r@.attributes[1] == (r.attributes@[1].0@, r.attributes@[1].1@));
        assert(r@.attributes[2] == (r.attributes@[2].0@, r.attributes@[2].1@));
        assert(r@.attributes[3] == (r.attributes@[3].0@, r.attributes@[3].1@));
        assert(r@.attributes =~= spec_event_of(id, o).attributes);
    }
    r
}

/// The ids whose outcome passed, in order.
pub open spec fn spec_passed_ids(
    entries: Seq<(Vec<u8>, Vec<u8>)>,
    vs: Seq<WeightedValidator>,
    th: FractionalVotingPower,
    crs: Seq<(u64, bool)>,
    ids: Seq<u64>,
) -> Seq<u64>
    decreases ids.len(),
{
    if ids.len() == 0 {
        Seq::empty()
    } else {
        let rest = spec_passed_ids(entries, vs, th, crs, ids.drop_last());
        if outcome_passed(spec_outcome(entries, vs, th, crs, ids.last())) {
            rest.push(ids.last())
        } else {
            rest
        }
    }
}

/// The ids whose outcome was rejected, in order.
pub open spec fn spec_rejected_ids(
    entries: Seq<(Vec<u8>, Vec<u8>)>,
    vs: Seq<WeightedValidator>,
    th: FractionalVotingPower,
    crs: Seq<(u64, bool)>,
    ids: Seq<u64>,
) -> Seq<u64>
    decreases ids.len(),
{
    if ids.len() == 0 {
        Seq::empty()
    } else {
        let rest = spec_rejected_ids(entries, vs, th, crs, ids.drop_last());
        if outcome_rejected(spec_outcome(entries, vs, th, crs, ids.last())) {
            rest.push(ids.last())
        } else {
            rest
        }
    }
}

/// The outcome of a proposal depends only on its five governance fields.
proof fn lemma_outcome_reads(
    e1: Seq<(Vec<u8>, Vec<u8>)>,
    e2: Seq<(Vec<u8>, Vec<u8>)>,
    vs: Seq<WeightedValidator>,
    th: FractionalVotingPower,
    crs: Seq<(u64, bool)>,
    id: u64,
)
    requires
        spec_get(e1, spec_gov_key(GOV_FUNDS, id)) == spec_get(e2, spec_gov_key(GOV_FUNDS, id)),
        spec_get(e1, spec_gov_key(GOV_END_EPOCH, id)) == spec_get(
            e2,
            spec_gov_key(GOV_END_EPOCH, id),
        ),
        spec_get(e1, spec_gov_key(GOV_VOTES, id)) == spec_get(e2, spec_gov_key(GOV_VOTES, id)),
        spec_get(e1, spec_gov_key(GOV_AUTHOR, id)) == spec_get(e2, spec_gov_key(GOV_AUTHOR, id)),
        spec_get(e1, spec_gov_key(GOV_CODE, id)) == spec_get(e2, spec_gov_key(GOV_CODE, id)),
    ensures
        spec_outcome(e1, vs, th, crs, id) == spec_outcome(e2, vs, th, crs, id),
        spec_author_of(e1, id) == spec_author_of(e2, id),
{
    reveal(spec_outcome);
    reveal(spec_votes_of);
    reveal(spec_author_of);
}

/// Reads one proposal's outcome off the store: presence of the mandatory
/// fields, the vote tally, the author, and the outside engine's verdict on
/// any attached code (the transient execution lock is written and deleted
/// around it). Nothing but that lock is touched.
#[verifier::rlimit(100)]
fn proposal_outcome(
    store: &mut Store,
    validator_set: &Vec<WeightedValidator>,
    threshold: &FractionalVotingPower,
    code_results: &Vec<(u64, bool)>,
    id: u64,
) -> (r: (GovOutcome, Option<Address>))
    requires
        old(store).wf(),
        spec_total_stake(validator_set@) <= u64::MAX,
        threshold.wf(),
    ensures
        final(store).wf(),
        r.0 == spec_outcome(
            old(store).entries@,
            validator_set@,
            *threshold,
            code_results@,
            id,
        ),
        outcome_passed(r.0) ==> (r.1 matches Some(a) && crate::address::wf_address(a@)
            && spec_author_of(old(store).entries@, id) == Some(a@)),
        forall|k2: Seq<u8>| k2 != spec_gov_key(GOV_EXEC_LOCK, id) ==> final(store).get(k2) == old(
            store,
        ).get(k2),
{
    let ghost e0 = old(store).entries@;
    let ghost vs = validator_set@;
    let ghost th = *threshold;
    let ghost crs = code_results@;
    let funds_key = gov_key(GOV_FUNDS, id);
    let end_epoch_key = gov_key(GOV_END_EPOCH, id);
    let votes_key = gov_key(GOV_VOTES, id);
    let author_key = gov_key(GOV_AUTHOR, id);
    let code_key = gov_key(GOV_CODE, id);
    let funds_present = store.read(&funds_key).is_some();
    let end_present = store.read(&end_epoch_key).is_some();
    if !funds_present || !end_present {
        proof {
            reveal(spec_outcome);
        }
        return (GovOutcome::Failed, None);
    }
    let mut votes: Vec<(Address, Vec<u8>)> = Vec::new();
    let mut votes_ok = true;
    match store.read(&votes_key) {
        None => {},
        Some(b) => {
            proof {
                assert(b@.skip(0) =~= b@);
            }
            let mut pos: usize = 0;
            match read_list(&b, &mut pos) {
                Some(items) => {
                    if pos != b.len() {
                        votes_ok = false;
                    } else {
                        match decode_sig_entries(&items) {
                            Some(entries) => {
                                votes = entries;
                            },
                            None => {
                                votes_ok = false;
                            },
                        }
                    }
                },
                None => {
                    votes_ok = false;
                },
            }
        },
    }
    proof {
        reveal(spec_votes_of);
        if votes_ok {
            assert(spec_votes_of(e0, id) == Some(
                votes@.map_values(|v: (Address, Vec<u8>)| (v.0@, v.1@)),
            )) by {
                if spec_get(e0, spec_gov_key(GOV_VOTES, id)) is None {
                    assert(votes@.map_values(|v: (Address, Vec<u8>)| (v.0@, v.1@)) =~= Seq::<
                        (AddressV, Seq<u8>),
                    >::empty());
                }
            };
        } else {
            assert(spec_votes_of(e0, id) is None);
        }
    }
    if !votes_ok {
        proof {
            reveal(spec_outcome);
        }
        return (GovOutcome::Failed, None);
    }
    if !compute_tally(validator_set, threshold, &votes) {
        proof {
            reveal(spec_outcome);
        }
        return (GovOutcome::Rejected, None);
    }
    let author_good = match store.read(&author_key) {
        None => None,
        Some(b) => match Address::decode(&b) {
            None => None,
            Some(a) => {
                let a_wf = match &a {
                    Address::Established(h) => h.len() <= 64,
                    Address::Implicit(h) => h.len() <= 64,
                    Address::Internal(_i) => true,
                };
                if a_wf {
                    Some(a)
                } else {
                    None
                }
            },
        },
    };
    let author = match author_good {
        None => {
            proof {
                reveal(spec_outcome);
                reveal(spec_author_of);
            }
            return (GovOutcome::Failed, None);
        },
        Some(a) => a,
    };
    proof {
        reveal(spec_author_of);
        assert(spec_author_of(e0, id) == Some(author@));
    }
    if store.read(&code_key).is_none() {
        proof {
            reveal(spec_outcome);
        }
        return (GovOutcome::PassedNoCode, Some(author));
    }
    // the attached code runs under the outside engine; its verdict is
    // handed in per id
    let lock_key = gov_key(GOV_EXEC_LOCK, id);
    store.write(&lock_key, Vec::new());
    let code_ok = lookup_code_result(code_results, id);
    let ghost mid = *store;
    store.delete(&lock_key);
    proof {
        reveal(spec_outcome);
        assert forall|k2: Seq<u8>| k2 != spec_gov_key(GOV_EXEC_LOCK, id) implies store.get(k2)
            == spec_get(e0, k2) by {
            assert(store.get(k2) == mid.get(k2));
        };
    }
    if code_ok {
        (GovOutcome::PassedAccepted, Some(author))
    } else {
        (GovOutcome::PassedCodeRejected, Some(author))
    }
}

/// The account a proposal's locked funds go to: the author on a pass,
/// the slash fund otherwise.
pub open spec fn spec_recipient(
    entries: Seq<(Vec<u8>, Vec<u8>)>,
    vs: Seq<WeightedValidator>,
    th: FractionalVotingPower,
    crs: Seq<(u64, bool)>,
    id: u64,
) -> AddressV {
    if outcome_passed(spec_outcome(entries, vs, th, crs, id)) {
        spec_author_of(entries, id)->Some_0
    } else {
        AddressV::Internal(InternalAddress::SlashFund)
    }
}

/// The funds a proposal locks, as stored; unreadable funds read as zero.
pub open spec fn spec_funds_of(entries: Seq<(Vec<u8>, Vec<u8>)>, id: u64) -> int {
    spec_read_amount(entries, spec_gov_key(GOV_FUNDS, id))
}

/// The amount under a key after the fund transfers of a list of closed
/// proposals, in order: each proposal moves its locked funds (bounded by
/// the governance account's remaining balance) from the governance
/// account to its recipient, saturating the recipient; a recipient equal
/// to the governance account moves nothing.
pub open spec fn spec_bal_after(
    entries: Seq<(Vec<u8>, Vec<u8>)>,
    vs: Seq<WeightedValidator>,
    th: FractionalVotingPower,
    crs: Seq<(u64, bool)>,
    ids: Seq<u64>,
    k2: Seq<u8>,
) -> int
    decreases ids.len(),
{
    if ids.len() == 0 {
        spec_read_amount(entries, k2)
    } else {
        let id = ids.last();
        let rcp = spec_recipient(entries, vs, th, crs, id);
        let nam = AddressV::Internal(InternalAddress::Nam);
        let gov = AddressV::Internal(InternalAddress::Governance);
        if rcp == gov {
            spec_bal_after(entries, vs, th, crs, ids.drop_last(), k2)
        } else {
            let sk = spec_balance_key(nam, gov);
            let dk = spec_balance_key(nam, rcp);
            let sb = spec_bal_after(entries, vs, th, crs, ids.drop_last(), sk);
            let funds = spec_funds_of(entries, id);
            let moved = if sb < funds {
                sb
            } else {
                funds
            };
            if k2 == sk {
                sb - moved
            } else if k2 == dk {
                let db = spec_bal_after(entries, vs, th, crs, ids.drop_last(), dk);
                if db + moved > u64::MAX {
                    u64::MAX as int
                } else {
                    db + moved
                }
            } else {
                spec_bal_after(entries, vs, th, crs, ids.drop_last(), k2)
            }
        }
    }
}

/// One governance fund transfer advances the balance fold by one step.
proof fn lemma_gov_bal_step(
    old_entries: Seq<(Vec<u8>, Vec<u8>)>,
    vs: Seq<WeightedValidator>,
    th: FractionalVotingPower,
    crs: Seq<(u64, bool)>,
    ids1: Seq<u64>,
    mid: Store,
    post: Store,
    rcp: AddressV,
    funds: u64,
)
    requires
        ids1.len() > 0,
        spec_recipient(old_entries, vs, th, crs, ids1.last()) == rcp,
        rcp != AddressV::Internal(InternalAddress::Governance),
        crate::address::wf_address(rcp),
        funds == spec_funds_of(old_entries, ids1.last()),
        forall|k2: Seq<u8>| k2.len() > 0 && k2[0] == 7 ==> (#[trigger] spec_read_amount(
            mid.entries@,
            k2,
        )) == spec_bal_after(old_entries, vs, th, crs, ids1.drop_last(), k2),
        ({
            let nam = AddressV::Internal(InternalAddress::Nam);
            let gov = AddressV::Internal(InternalAddress::Governance);
            let sk = spec_balance_key(nam, gov);
            let dk = spec_balance_key(nam, rcp);
            let sb = spec_read_amount(mid.entries@, sk);
            let db = spec_read_amount(mid.entries@, dk);
            let moved = if sb < funds {
                sb
            } else {
                funds as int
            };
            &&& spec_read_amount(post.entries@, sk) == sb - moved
            &&& spec_read_amount(post.entries@, dk) == (if db + moved > u64::MAX {
                u64::MAX as int
            } else {
                db + moved
            })
            &&& forall|k2: Seq<u8>| k2 != sk && k2 != dk ==> post.get(k2) == mid.get(k2)
        }),
    ensures
        forall|k2: Seq<u8>| k2.len() > 0 && k2[0] == 7 ==> (#[trigger] spec_read_amount(
            post.entries@,
            k2,
        )) == spec_bal_after(old_entries, vs, th, crs, ids1, k2),
{
    let nam = AddressV::Internal(InternalAddress::Nam);
    let gov = AddressV::Internal(InternalAddress::Governance);
    let sk = spec_balance_key(nam, gov);
    let dk = spec_balance_key(nam, rcp);
    lemma_balance_key_injective(nam, gov, rcp);
    assert(sk[0] == 7 && sk.len() > 0);
    assert(dk[0] == 7 && dk.len() > 0);
    assert(spec_read_amount(mid.entries@, sk) == spec_bal_after(
        old_entries,
        vs,
        th,
        crs,
        ids1.drop_last(),
        sk,
    ));
    assert(spec_read_amount(mid.entries@, dk) == spec_bal_after(
        old_entries,
        vs,
        th,
        crs,
        ids1.drop_last(),
        dk,
    ));
    let sb = spec_bal_after(old_entries, vs, th, crs, ids1.drop_last(), sk);
    let moved = if sb < funds {
        sb
    } else {
        funds as int
    };
    assert forall|k2: Seq<u8>| k2.len() > 0 && k2[0] == 7 implies (#[trigger] spec_read_amount(
        post.entries@,
        k2,
    )) == spec_bal_after(old_entries, vs, th, crs, ids1, k2) by {
        if k2 == sk {
            assert(spec_read_amount(post.entries@, sk) == sb - moved);
            assert(spec_bal_after(old_entries, vs, th, crs, ids1, sk) == sb - moved);
        } else if k2 == dk {
            let db = spec_bal_after(old_entries, vs, th, crs, ids1.drop_last(), dk);
            assert(spec_read_amount(post.entries@, dk) == (if db + moved > u64::MAX {
                u64::MAX as int
            } else {
                db + moved
            }));
            assert(spec_bal_after(old_entries, vs, th, crs, ids1, dk) == (if db + moved
                > u64::MAX {
                u64::MAX as int
            } else {
                db + moved
            }));
        } else {
            assert(post.get(k2) == mid.get(k2));
            assert(spec_read_amount(post.entries@, k2) == spec_read_amount(mid.entries@, k2));
            assert(spec_bal_after(old_entries, vs, th, crs, ids1, k2) == spec_bal_after(
                old_entries,
                vs,
                th,
                crs,
                ids1.drop_last(),
                k2,
            ));
        }
    };
}

/// Executes every proposal whose voting window has closed: the tally of
/// each id is computed once off the store, exactly one `Proposal` event is
/// emitted per id, the locked funds move to the author on a pass (with the
/// attached code, if any, accepted by the outside engine) and to the slash
/// fund otherwise. A missing or unreadable mandatory field fails that one
/// proposal and forwards its funds to the slash fund; processing never
/// halts. Only balance keys and the transient execution locks are written.
#[verifier::rlimit(100)]
pub fn execute_governance_proposals(
    store: &mut Store,
    validator_set: &Vec<WeightedValidator>,
    threshold: &FractionalVotingPower,
    proposal_ids: Vec<u64>,
    code_results: &Vec<(u64, bool)>,
    events: &mut Vec<Event>,
) -> (r: ProposalsResult)
    requires
        old(store).wf(),
        spec_total_stake(validator_set@) <= u64::MAX,
        threshold.wf(),
    ensures
        final(store).wf(),
        final(events)@.len() == old(events)@.len() + proposal_ids@.len(),
        forall|k: int| 0 <= k < old(events)@.len() ==> final(events)@[k] == old(events)@[k],
        forall|k: int| 0 <= k < proposal_ids@.len() ==> (#[trigger] final(events)@[old(
            events,
        )@.len() + k])@ == spec_event_of(
            proposal_ids@[k],
            spec_outcome(
                old(store).entries@,
                validator_set@,
                *threshold,
                code_results@,
                proposal_ids@[k],
            ),
        ),
        r.passed@ == spec_passed_ids(
            old(store).entries@,
            validator_set@,
            *threshold,
            code_results@,
            proposal_ids@,
        ),
        r.rejected@ == spec_rejected_ids(
            old(store).entries@,
            validator_set@,
            *threshold,
            code_results@,
            proposal_ids@,
        ),
        forall|k2: Seq<u8>| (k2.len() == 0 || (k2[0] != 6 && k2[0] != 7)) ==> final(store).get(
            k2,
        ) == old(store).get(k2),
        forall|k2: Seq<u8>| k2.len() > 0 && k2[0] == 7 ==> spec_read_amount(
            final(store).entries@,
            k2,
        ) == spec_bal_after(
            old(store).entries@,
            validator_set@,
            *threshold,
            code_results@,
            proposal_ids@,
            k2,
        ),
{
    let mut passed: Vec<u64> = Vec::new();
    let mut rejected: Vec<u64> = Vec::new();
    let n = proposal_ids.len();
    let ghost old_events = events@;
    let ghost old_entries = old(store).entries@;
    let ghost vs = validator_set@;
    let ghost th = *threshold;
    let ghost crs = code_results@;
    let gov = Address::Internal(InternalAddress::Governance);
    let slash_fund = Address::Internal(InternalAddress::SlashFund);
    let nam = Address::Internal(InternalAddress::Nam);
    proof {
        assert(proposal_ids@.take(0) =~= Seq::<u64>::empty());
        assert(passed@ =~= spec_passed_ids(old_entries, vs, th, crs, proposal_ids@.take(0)));
        assert(rejected@ =~= spec_rejected_ids(old_entries, vs, th, crs, proposal_ids@.take(0)));
    }
    for i in 0..n
        invariant
            n == proposal_ids@.len(),
            store.wf(),
            old_entries == old(store).entries@,
            vs == validator_set@,
            th == *threshold,
            crs == code_results@,
            threshold.wf(),
            spec_total_stake(vs) <= u64::MAX,
            gov@ == AddressV::Internal(InternalAddress::Governance),
            slash_fund@ == AddressV::Internal(InternalAddress::SlashFund),
            nam@ == AddressV::Internal(InternalAddress::Nam),
            events@.len() == old_events.len() + i,
            forall|k: int| 0 <= k < old_events.len() ==> events@[k] == old_events[k],
            forall|k: int| 0 <= k < i ==> (#[trigger] events@[old_events.len() + k])@
                == spec_event_of(
                proposal_ids@[k],
                spec_outcome(old_entries, vs, th, crs, proposal_ids@[k]),
            ),
            passed@ == spec_passed_ids(old_entries, vs, th, crs, proposal_ids@.take(i as int)),
            rejected@ == spec_rejected_ids(
                old_entries,
                vs,
                th,
                crs,
                proposal_ids@.take(i as int),
            ),
            forall|k2: Seq<u8>| (k2.len() == 0 || (k2[0] != 6 && k2[0] != 7)) ==> (
            #[trigger] store.get(k2)) == spec_get(old_entries, k2),
            forall|k2: Seq<u8>| k2.len() > 0 && k2[0] == 7 ==> (#[trigger] spec_read_amount(
                store.entries@,
                k2,
            )) == spec_bal_after(old_entries, vs, th, crs, proposal_ids@.take(i as int), k2),
    {
        let id = proposal_ids[i];
        let ghost o_spec = spec_outcome(old_entries, vs, th, crs, id);
        let funds_key = gov_key(GOV_FUNDS, id);
        let funds = read_amount(store, &funds_key);
        let ghost pre = *store;
        proof {
            assert(spec_gov_key(GOV_FUNDS, id)[0] == GOV_FUNDS);
            assert(spec_gov_key(GOV_END_EPOCH, id)[0] == GOV_END_EPOCH);
            assert(spec_gov_key(GOV_VOTES, id)[0] == GOV_VOTES);
            assert(spec_gov_key(GOV_AUTHOR, id)[0] == GOV_AUTHOR);
            assert(spec_gov_key(GOV_CODE, id)[0] == GOV_CODE);
            assert(spec_gov_key(GOV_EXEC_LOCK, id)[0] == GOV_EXEC_LOCK);
            assert(store.get(spec_gov_key(GOV_FUNDS, id)) == spec_get(
                old_entries,
                spec_gov_key(GOV_FUNDS, id),
            ));
            assert(store.get(spec_gov_key(GOV_END_EPOCH, id)) == spec_get(
                old_entries,
                spec_gov_key(GOV_END_EPOCH, id),
            ));
            assert(store.get(spec_gov_key(GOV_VOTES, id)) == spec_get(
                old_entries,
                spec_gov_key(GOV_VOTES, id),
            ));
            assert(store.get(spec_gov_key(GOV_AUTHOR, id)) == spec_get(
                old_entries,
                spec_gov_key(GOV_AUTHOR, id),
            ));
            assert(store.get(spec_gov_key(GOV_CODE, id)) == spec_get(
                old_entries,
                spec_gov_key(GOV_CODE, id),
            ));
        }
        let ghost ids1 = proposal_ids@.take(i + 1);
        proof {
            assert(ids1.drop_last() =~= proposal_ids@.take(i as int));
            assert(ids1.last() == proposal_ids@[i as int]);
            assert(funds == spec_funds_of(old_entries, id)) by {
                assert(store.get(spec_gov_key(GOV_FUNDS, id)) == spec_get(
                    old_entries,
                    spec_gov_key(GOV_FUNDS, id),
                ));
            };
        }
        let (o, author_opt) = proposal_outcome(store, validator_set, threshold, code_results, id);
        let ghost mid1 = *store;
        proof {
            lemma_outcome_reads(pre.entries@, old_entries, vs, th, crs, id);
            assert(o == o_spec);
            assert forall|k2: Seq<u8>| k2.len() > 0 && k2[0] == 7 implies (
            #[trigger] spec_read_amount(mid1.entries@, k2)) == spec_bal_after(
                old_entries,
                vs,
                th,
                crs,
                proposal_ids@.take(i as int),
                k2,
            ) by {
                assert(k2 != spec_gov_key(GOV_EXEC_LOCK, id));
                assert(mid1.get(k2) == pre.get(k2));
                assert(spec_read_amount(pre.entries@, k2) == spec_bal_after(
                    old_entries,
                    vs,
                    th,
                    crs,
                    proposal_ids@.take(i as int),
                    k2,
                ));
            };
        }
        proof {
            assert forall|k2: Seq<u8>| (k2.len() == 0 || (k2[0] != 6 && k2[0] != 7)) implies mid1
                .get(k2) == spec_get(old_entries, k2) by {
                assert(k2 != spec_gov_key(GOV_EXEC_LOCK, id));
                assert(mid1.get(k2) == pre.get(k2));
                assert(pre.get(k2) == spec_get(old_entries, k2));
            };
        }
        let ev = proposal_event(id, o);
        events.push(ev);
        match o {
            GovOutcome::PassedAccepted | GovOutcome::PassedNoCode => {
                passed.push(id);
                match &author_opt {
                    Some(author) => {
                        proof {
                            assert(spec_author_of(old_entries, id) == Some(author@));
                            assert(spec_recipient(old_entries, vs, th, crs, id) == author@);
                        }
                        if !crate::address::address_eq(&gov, author) {
                            transfer(store, &nam, funds, &gov, author);
                            proof {
                                assert forall|k2: Seq<u8>| (k2.len() == 0 || (k2[0] != 6 && k2[0]
                                    != 7)) implies store.get(k2) == spec_get(old_entries, k2) by {
                                    assert(spec_balance_key(nam@, gov@)[0] == 7);
                                    assert(spec_balance_key(nam@, author@)[0] == 7);
                                    assert(store.get(k2) == mid1.get(k2));
                                };
                                lemma_gov_bal_step(
                                    old_entries,
                                    vs,
                                    th,
                                    crs,
                                    ids1,
                                    mid1,
                                    *store,
                                    author@,
                                    funds,
                                );
                            }
                        } else {
                            proof {
                                assert forall|k2: Seq<u8>| k2.len() > 0 && k2[0] == 7 implies (
                                #[trigger] spec_read_amount(store.entries@, k2)) == spec_bal_after(
                                    old_entries,
                                    vs,
                                    th,
                                    crs,
                                    ids1,
                                    k2,
                                ) by {
                                    assert(spec_read_amount(store.entries@, k2)
                                        == spec_read_amount(mid1.entries@, k2));
                                };
                            }
                        }
                    },
                    None => {
                        proof {
                            assert(false);
                        }
                    },
                }
            },
            GovOutcome::Rejected | GovOutcome::PassedCodeRejected => {
                rejected.push(id);
                transfer(store, &nam, funds, &gov, &slash_fund);
                proof {
                    assert forall|k2: Seq<u8>| (k2.len() == 0 || (k2[0] != 6 && k2[0] != 7))
                        implies store.get(k2) == spec_get(old_entries, k2) by {
                        assert(spec_balance_key(nam@, gov@)[0] == 7);
                        assert(spec_balance_key(nam@, slash_fund@)[0] == 7);
                        assert(store.get(k2) == mid1.get(k2));
                    };
                    assert(spec_recipient(old_entries, vs, th, crs, id) == slash_fund@);
                    lemma_gov_bal_step(
                        old_entries,
                        vs,
                        th,
                        crs,
                        ids1,
                        mid1,
                        *store,
                        slash_fund@,
                        funds,
                    );
                }
            },
            GovOutcome::Failed => {
                transfer(store, &nam, funds, &gov, &slash_fund);
                proof {
                    assert forall|k2: Seq<u8>| (k2.len() == 0 || (k2[0] != 6 && k2[0] != 7))
                        implies store.get(k2) == spec_get(old_entries, k2) by {
                        assert(spec_balance_key(nam@, gov@)[0] == 7);
                        assert(spec_balance_key(nam@, slash_fund@)[0] == 7);
                        assert(store.get(k2) == mid1.get(k2));
                    };
                    assert(spec_recipient(old_entries, vs, th, crs, id) == slash_fund@);
                    lemma_gov_bal_step(
                        old_entries,
                        vs,
                        th,
                        crs,
                        ids1,
                        mid1,
                        *store,
                        slash_fund@,
                        funds,
                    );
                }
            },
        }
        proof {
            assert(passed@ =~= spec_passed_ids(old_entries, vs, th, crs, ids1));
            assert(rejected@ =~= spec_rejected_ids(old_entries, vs, th, crs, ids1));
        }
    }
    proof {
        assert(proposal_ids@.take(n as int) =~= proposal_ids@);
    }
    ProposalsResult { passed, rejected }
}

/// The outside engine's verdict on a proposal's attached code; absent
/// means rejected.
pub fn lookup_code_result(code_results: &Vec<(u64, bool)>, id: u64) -> (r: bool)
    ensures
        r == spec_code_result(code_results@, id),
{
    let n = code_results.len();
    proof {
        assert(code_results@.skip(0) =~= code_results@);
    }
    for i in 0..n
        invariant
            n == code_results@.len(),
            spec_code_result(code_results@, id) == spec_code_result(
                code_results@.skip(i as int),
                id,
            ),
    {
        proof {
            assert(code_results@.skip(i as int)[0] == code_results@[i as int]);
            assert(code_results@.skip(i as int).drop_first() =~= code_results@.skip(i + 1));
        }
        if code_results[i].0 == id {
            return code_results[i].1;
        }
    }
    proof {
        assert(code_results@.skip(n as int) =~= Seq::<(u64, bool)>::empty());
    }
    false
}

/// The outside engine's verdict on a proposal's code.
pub open spec fn spec_code_result(rs: Seq<(u64, bool)>, id: u64) -> bool
    decreases rs.len(),
{
    if rs.len() == 0 {
        false
    } else if rs[0].0 == id {
        rs[0].1
    } else {
        spec_code_result(rs.drop_first(), id)
    }
}

} // verus!
