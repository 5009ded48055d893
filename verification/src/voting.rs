//! Voting powers: stakes, totals and reduced fractions of the total.

use vstd::prelude::*;
use crate::address::{Address, AddressV, address_eq, copy_address};

verus! {

/// A consensus validator with its bonded stake.
#[derive(Clone, Debug)]
pub struct WeightedValidator {
    /// The validator's bonded stake, its voting power.
    pub bonded_stake: u64,
    /// The validator's address.
    pub address: Address,
}

/// The greatest common divisor, by Euclid's recursion.
pub open spec fn spec_gcd(a: nat, b: nat) -> nat
    decreases b,
{
    if b == 0 {
        a
    } else {
        spec_gcd(b, a % b)
    }
}

/// The divisor divides both arguments exactly.
pub proof fn lemma_gcd_divides(a: nat, b: nat)
    ensures
        spec_gcd(a, b) != 0 ==> a % spec_gcd(a, b) == 0 && b % spec_gcd(a, b) == 0,
        a != 0 || b != 0 ==> spec_gcd(a, b) != 0,
    decreases b,
{
    if b == 0 {
        if a != 0 {
            assert(a % a == 0 && 0nat % a == 0) by (nonlinear_arith)
                requires
                    a > 0,
            ;
        }
    } else {
        lemma_gcd_divides(b, a % b);
        let g = spec_gcd(a, b);
        if g != 0 {
            assert(b % g == 0 && (a % b) % g == 0);
            vstd::arithmetic::div_mod::lemma_fundamental_div_mod(a as int, b as int);
            vstd::arithmetic::div_mod::lemma_fundamental_div_mod(b as int, g as int);
            vstd::arithmetic::div_mod::lemma_fundamental_div_mod((a % b) as int, g as int);
            let q = a as int / b as int;
            let bq = b as int / g as int;
            let rq = (a % b) as int / g as int;
            assert(a as int == (q * bq + rq) * g) by (nonlinear_arith)
                requires
                    a as int == (b as int) * q + (a % b) as int,
                    b as int == (g as int) * bq,
                    (a % b) as int == (g as int) * rq,
                    g as int == g,
            ;
            vstd::arithmetic::div_mod::lemma_mod_multiples_basic(q * bq + rq, g as int);
            assert(((q * bq + rq) * (g as int)) % (g as int) == 0);
            assert(a as int == (q * bq + rq) * (g as int));
            assert((a as int) % (g as int) == 0);
            assert(a % g == 0);
        }
    }
}

/// The greatest common divisor of two numbers.
pub fn gcd(a: u64, b: u64) -> (r: u64)
    ensures
        r as nat == spec_gcd(a as nat, b as nat),
{
    let mut x: u64 = a;
    let mut y: u64 = b;
    while y != 0
        invariant
            spec_gcd(x as nat, y as nat) == spec_gcd(a as nat, b as nat),
        decreases y,
    {
        let t = x % y;
        x = y;
        y = t;
    }
    x
}

/// A fraction of the total voting power, reduced to lowest terms; two
/// equal ratios of stake always compare equal.
#[derive(Clone, Copy, Debug)]
pub struct FractionalVotingPower {
    num: u64,
    den: u64,
}

/// Why a fraction was refused.
#[derive(Clone, Copy, Debug, PartialEq, Eq, Structural)]
pub enum VotingPowerError {
    /// The denominator is zero.
    ZeroDenominator,
    /// The fraction exceeds one.
    GreaterThanOne,
}

impl FractionalVotingPower {
    /// The reduced numerator.
    pub closed spec fn spec_num(self) -> u64 {
        self.num
    }

    /// The reduced denominator.
    pub closed spec fn spec_den(self) -> u64 {
        self.den
    }

    /// A fraction of voting power is at most one, with a positive
    /// denominator.
    pub open spec fn wf(self) -> bool {
        self.spec_den() > 0 && self.spec_num() <= self.spec_den()
    }

    /// The reduced numerator.
    pub fn num(&self) -> (r: u64)
        ensures
            r == self.spec_num(),
    {
        self.num
    }

    /// The reduced denominator.
    pub fn den(&self) -> (r: u64)
        ensures
            r == self.spec_den(),
    {
        self.den
    }

    /// A new fraction of voting power, at most one, reduced to lowest
    /// terms by the greatest common divisor; it denotes the same ratio.
    pub fn new(num: u64, den: u64) -> (r: Result<FractionalVotingPower, VotingPowerError>)
        ensures
            den == 0 ==> r == Err::<FractionalVotingPower, VotingPowerError>(
                VotingPowerError::ZeroDenominator,
            ),
            den != 0 && num > den ==> r == Err::<FractionalVotingPower, VotingPowerError>(
                VotingPowerError::GreaterThanOne,
            ),
            den != 0 && num <= den ==> (r matches Ok(f) && {
                let g = spec_gcd(num as nat, den as nat);
                &&& f.spec_num() == num as nat / g
                &&& f.spec_den() == den as nat / g
                &&& f.spec_num() * den == num * f.spec_den()
                &&& f.spec_den() > 0
                &&& f.wf()
            }),
    {
        if den == 0 {
            return Err(VotingPowerError::ZeroDenominator);
        }
        if num > den {
            return Err(VotingPowerError::GreaterThanOne);
        }
        let g = gcd(num, den);
        proof {
            lemma_gcd_divides(num as nat, den as nat);
        }
        let r_num = num / g;
        let r_den = den / g;
        proof {
            let gn = spec_gcd(num as nat, den as nat);
            assert((num as nat / gn) * (den as nat) == (num as nat) * (den as nat / gn))
                by (nonlinear_arith)
                requires
                    gn != 0,
                    num as nat % gn == 0,
                    den as nat % gn == 0,
            ;
            assert(den as nat / gn > 0) by (nonlinear_arith)
                requires
                    gn != 0,
                    den as nat % gn == 0,
                    den > 0,
            ;
            assert(num as nat / gn <= den as nat / gn) by (nonlinear_arith)
                requires
                    gn != 0,
                    num <= den,
            ;
        }
        Ok(FractionalVotingPower { num: r_num, den: r_den })
    }
}

impl PartialEq for FractionalVotingPower {
    fn eq(&self, other: &FractionalVotingPower) -> (r: bool) {
        self.num == other.num && self.den == other.den
    }
}

impl vstd::std_specs::cmp::PartialEqSpecImpl for FractionalVotingPower {
    open spec fn obeys_eq_spec() -> bool {
        true
    }

    open spec fn eq_spec(&self, other: &FractionalVotingPower) -> bool {
        self.spec_num() == other.spec_num() && self.spec_den() == other.spec_den()
    }
}

impl Eq for FractionalVotingPower {

}

/// The sum of the bonded stakes of a validator set.
pub open spec fn spec_total_stake(vs: Seq<WeightedValidator>) -> int
    decreases vs.len(),
{
    if vs.len() == 0 {
        0int
    } else {
        vs[0].bonded_stake + spec_total_stake(vs.drop_first())
    }
}

/// The sum of the voting powers of a set of validators.
pub fn sum_voting_powers(validators: &Vec<WeightedValidator>) -> (r: u64)
    requires
        spec_total_stake(validators@) <= u64::MAX,
    ensures
        r == spec_total_stake(validators@),
{
    let mut total: u64 = 0;
    let n = validators.len();
    proof {
        assert(validators@.skip(0) =~= validators@);
        lemma_total_stake_nonneg(validators@);
    }
    for i in 0..n
        invariant
            n == validators@.len(),
            spec_total_stake(validators@) <= u64::MAX,
            total + spec_total_stake(validators@.skip(i as int)) == spec_total_stake(validators@),
    {
        proof {
            assert(validators@.skip(i as int)[0] == validators@[i as int]);
            assert(validators@.skip(i as int).drop_first() =~= validators@.skip(i + 1));
            lemma_total_stake_nonneg(validators@.skip(i + 1));
        }
        total = total + validators[i].bonded_stake;
    }
    proof {
        assert(validators@.skip(n as int) =~= Seq::<WeightedValidator>::empty());
    }
    total
}

/// Stake sums are never negative.
pub proof fn lemma_total_stake_nonneg(vs: Seq<WeightedValidator>)
    ensures
        spec_total_stake(vs) >= 0,
    decreases vs.len(),
{
    if vs.len() > 0 {
        lemma_total_stake_nonneg(vs.drop_first());
    }
}

/// The stake of the first validator with the given address, if any.
pub open spec fn spec_stake_lookup(vs: Seq<WeightedValidator>, a: AddressV) -> Option<u64>
    decreases vs.len(),
{
    if vs.len() == 0 {
        None
    } else if vs[0].address@ == a {
        Some(vs[0].bonded_stake)
    } else {
        spec_stake_lookup(vs.drop_first(), a)
    }
}

/// Looks up the stake of a validator by address.
pub fn stake_lookup(vs: &Vec<WeightedValidator>, a: &Address) -> (r: Option<u64>)
    ensures
        r == spec_stake_lookup(vs@, a@),
{
    let n = vs.len();
    proof {
        assert(vs@.skip(0) =~= vs@);
    }
    for i in 0..n
        invariant
            n == vs@.len(),
            spec_stake_lookup(vs@, a@) == spec_stake_lookup(vs@.skip(i as int), a@),
    {
        proof {
            assert(vs@.skip(i as int)[0] == vs@[i as int]);
            assert(vs@.skip(i as int).drop_first() =~= vs@.skip(i + 1));
        }
        if address_eq(&vs[i].address, a) {
            return Some(vs[i].bonded_stake);
        }
    }
    proof {
        assert(vs@.skip(n as int) =~= Seq::<WeightedValidator>::empty());
    }
    None
}

/// The stake an address holds in a validator set, zero when absent.
pub open spec fn spec_stake_of(vs: Seq<WeightedValidator>, a: AddressV) -> int {
    match spec_stake_lookup(vs, a) {
        None => 0int,
        Some(s) => s as int,
    }
}

/// The combined stake of a list of addresses.
pub open spec fn spec_stake_sum(vs: Seq<WeightedValidator>, addrs: Seq<AddressV>) -> int
    decreases addrs.len(),
{
    if addrs.len() == 0 {
        0int
    } else {
        spec_stake_of(vs, addrs[0]) + spec_stake_sum(vs, addrs.drop_first())
    }
}

/// Appending one address extends the combined stake by its stake.
pub proof fn lemma_stake_sum_push(vs: Seq<WeightedValidator>, addrs: Seq<AddressV>, a: AddressV)
    ensures
        spec_stake_sum(vs, addrs.push(a)) == spec_stake_sum(vs, addrs) + spec_stake_of(vs, a),
    decreases addrs.len(),
{
    let p = addrs.push(a);
    if addrs.len() == 0 {
        assert(p[0] == a);
        assert(p.drop_first() =~= Seq::<AddressV>::empty());
        assert(spec_stake_sum(vs, p) == spec_stake_of(vs, p[0]) + spec_stake_sum(
            vs,
            p.drop_first(),
        ));
    } else {
        assert(p[0] == addrs[0]);
        assert(p.drop_first() =~= addrs.drop_first().push(a));
        lemma_stake_sum_push(vs, addrs.drop_first(), a);
        assert(spec_stake_sum(vs, p) == spec_stake_of(vs, p[0]) + spec_stake_sum(
            vs,
            p.drop_first(),
        ));
        assert(spec_stake_sum(vs, addrs) == spec_stake_of(vs, addrs[0]) + spec_stake_sum(
            vs,
            addrs.drop_first(),
        ));
    }
}


/// Why voting powers could not be gathered.
#[derive(Clone, Copy, Debug, PartialEq, Eq, Structural)]
pub enum UtilsError {
    /// No consensus validators are known for a referenced height.
    NoValidatorsForHeight,
    /// A voter is not among the consensus validators of its height.
    ValidatorNotFound,
}

/// The validator set recorded for a height.
pub open spec fn spec_set_at(
    all: Seq<(u64, Vec<WeightedValidator>)>,
    h: u64,
) -> Option<Seq<WeightedValidator>>
    decreases all.len(),
{
    if all.len() == 0 {
        None
    } else if all[0].0 == h {
        Some(all[0].1@)
    } else {
        spec_set_at(all.drop_first(), h)
    }
}

/// Looks up the validator set recorded for a height.
fn set_at<'a>(all: &'a Vec<(u64, Vec<WeightedValidator>)>, h: u64) -> (r: Option<
    &'a Vec<WeightedValidator>,
>)
    ensures
        match r {
            Some(vs) => spec_set_at(all@, h) == Some(vs@),
            None => spec_set_at(all@, h) is None,
        },
{
    let n = all.len();
    proof {
        assert(all@.skip(0) =~= all@);
    }
    for i in 0..n
        invariant
            n == all@.len(),
            spec_set_at(all@, h) == spec_set_at(all@.skip(i as int), h),
    {
        proof {
            assert(all@.skip(i as int)[0] == all@[i as int]);
            assert(all@.skip(i as int).drop_first() =~= all@.skip(i + 1));
        }
        if all[i].0 == h {
            return Some(&all[i].1);
        }
    }
    proof {
        assert(all@.skip(n as int) =~= Seq::<(u64, Vec<WeightedValidator>)>::empty());
    }
    None
}

/// A recorded set is one of the entries.
proof fn lemma_set_at_exists(all: Seq<(u64, Vec<WeightedValidator>)>, h: u64)
    requires
        spec_set_at(all, h) is Some,
    ensures
        exists|i: int|
            0 <= i < all.len() && (#[trigger] all[i]).1@ == spec_set_at(all, h)->Some_0,
    decreases all.len(),
{
    if all[0].0 == h {
        assert(all[0].1@ == spec_set_at(all, h)->Some_0);
    } else {
        lemma_set_at_exists(all.drop_first(), h);
        let i = choose|i: int|
            0 <= i < all.drop_first().len() && (#[trigger] all.drop_first()[i]).1@ == spec_set_at(
                all.drop_first(),
                h,
            )->Some_0;
        assert(all[i + 1].1@ == spec_set_at(all, h)->Some_0);
    }
}

/// A member's stake never exceeds the set's total.
pub proof fn lemma_stake_le_total(vs: Seq<WeightedValidator>, a: AddressV)
    ensures
        spec_stake_lookup(vs, a) matches Some(st) ==> st <= spec_total_stake(vs),
    decreases vs.len(),
{
    if vs.len() > 0 {
        lemma_stake_le_total(vs.drop_first(), a);
        lemma_total_stake_nonneg(vs.drop_first());
    }
}

/// Whether a selected voter can be resolved: its height has a recorded
/// set which contains the voter.
pub open spec fn sel_resolvable(
    all: Seq<(u64, Vec<WeightedValidator>)>,
    sel: (AddressV, u64),
) -> bool {
    spec_set_at(all, sel.1) matches Some(vs) && spec_stake_lookup(vs, sel.0) is Some
        && spec_total_stake(vs) > 0
}

/// Whether one gathered voting power is right: the voter's stake over its
/// height's total, as an equal reduced fraction.
pub open spec fn voting_power_entry_ok(
    all: Seq<(u64, Vec<WeightedValidator>)>,
    sel: (AddressV, u64),
    entry: ((AddressV, u64), FractionalVotingPower),
) -> bool {
    &&& entry.0 == sel
    &&& (spec_set_at(all, sel.1) matches Some(vs) && spec_stake_lookup(vs, sel.0) matches Some(
        stake,
    ) && entry.1.spec_num() * spec_total_stake(vs) == stake * entry.1.spec_den()
        && entry.1.spec_den() > 0)
}

/// Gathers the fractional voting power of each selected voter at the
/// height it voted at; a voter outside its height's consensus set, or a
/// height without a recorded set, is an error.
pub fn get_voting_powers_for_selected(
    all_consensus: &Vec<(u64, Vec<WeightedValidator>)>,
    selected: &Vec<(Address, u64)>,
) -> (r: Result<Vec<((Address, u64), FractionalVotingPower)>, UtilsError>)
    requires
        forall|i: int| 0 <= i < all_consensus@.len() ==> spec_total_stake(
            (#[trigger] all_consensus@[i]).1@,
        ) <= u64::MAX,
    ensures
        r matches Ok(out) ==> ({
            &&& out@.len() == selected@.len()
            &&& forall|i: int| 0 <= i < selected@.len() ==> voting_power_entry_ok(
                all_consensus@,
                ((#[trigger] selected@[i]).0@, selected@[i].1),
                ((out@[i].0.0@, out@[i].0.1), out@[i].1),
            )
        }),
        r is Ok <==> forall|i: int|
            0 <= i < selected@.len() ==> sel_resolvable(
                all_consensus@,
                ((#[trigger] selected@[i]).0@, selected@[i].1),
            ),
{
    let mut out: Vec<((Address, u64), FractionalVotingPower)> = Vec::new();
    let n = selected.len();
    for i in 0..n
        invariant
            n == selected@.len(),
            out@.len() == i,
            forall|j: int| 0 <= j < all_consensus@.len() ==> spec_total_stake(
                (#[trigger] all_consensus@[j]).1@,
            ) <= u64::MAX,
            forall|k: int| 0 <= k < i ==> voting_power_entry_ok(
                all_consensus@,
                ((#[trigger] selected@[k]).0@, selected@[k].1),
                ((out@[k].0.0@, out@[k].0.1), out@[k].1),
            ),
            forall|k: int| 0 <= k < i ==> sel_resolvable(
                all_consensus@,
                ((#[trigger] selected@[k]).0@, selected@[k].1),
            ),
    {
        let addr = &selected[i].0;
        let height = selected[i].1;
        let vs = match set_at(all_consensus, height) {
            Some(vs) => vs,
            None => {
                return Err(UtilsError::NoValidatorsForHeight);
            },
        };
        let stake = match stake_lookup(vs, addr) {
            Some(s) => s,
            None => {
                return Err(UtilsError::ValidatorNotFound);
            },
        };
        proof {
            lemma_set_at_exists(all_consensus@, height);
            let j = choose|j: int|
                0 <= j < all_consensus@.len() && (#[trigger] all_consensus@[j]).1@ == spec_set_at(
                    all_consensus@,
                    height,
                )->Some_0;
            assert(spec_total_stake(vs@) <= u64::MAX);
            lemma_stake_le_total(vs@, addr@);
        }
        let total = sum_voting_powers(vs);
        let f = match FractionalVotingPower::new(stake, total) {
            Ok(f) => f,
            Err(_e) => {
                // a height whose whole set carries zero stake has no
                // meaningful fractions
                return Err(UtilsError::ValidatorNotFound);
            },
        };
        out.push(((copy_address(addr), height), f));
    }
    Ok(out)
}

/// The total voting power recorded at each height.
pub fn sum_voting_powers_for_block_heights(validators: &Vec<(u64, Vec<WeightedValidator>)>)
    -> (r: Vec<(u64, u64)>)
    requires
        forall|i: int| 0 <= i < validators@.len() ==> spec_total_stake(
            (#[trigger] validators@[i]).1@,
        ) <= u64::MAX,
    ensures
        r@.len() == validators@.len(),
        forall|i: int| 0 <= i < r@.len() ==> (#[trigger] r@[i]) == (
            validators@[i].0,
            spec_total_stake(validators@[i].1@) as u64,
        ),
{
    let mut out: Vec<(u64, u64)> = Vec::new();
    let n = validators.len();
    for i in 0..n
        invariant
            n == validators@.len(),
            out@.len() == i,
            forall|j: int| 0 <= j < validators@.len() ==> spec_total_stake(
                (#[trigger] validators@[j]).1@,
            ) <= u64::MAX,
            forall|k: int| 0 <= k < i ==> (#[trigger] out@[k]) == (
                validators@[k].0,
                spec_total_stake(validators@[k].1@) as u64,
            ),
    {
        let total = sum_voting_powers(&validators[i].1);
        out.push((validators[i].0, total));
    }
    out
}

} // verus!
