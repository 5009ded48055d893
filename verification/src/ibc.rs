//! Inter-blockchain-communication events and denomination paths.

use vstd::prelude::*;
use vstd::string::{StringSliceAdditionalSpecFns, StrSliceExecFns};

verus! {

/// An event of the inter-blockchain transfer application.
#[derive(Clone, Debug)]
pub struct IbcEvent {
    /// The event type.
    pub event_type: String,
    /// The attributes of the event.
    pub attributes: Vec<(String, String)>,
}

/// The trace path of a denomination: the bytes of its leading port and
/// channel hops, without the separator before the base token.
#[derive(Clone, Debug)]
pub struct TracePath {
    /// The path's bytes.
    pub path: Vec<u8>,
}

/// The position of the first path separator in a byte string, or the
/// length when there is none.
pub open spec fn spec_first_sep(b: Seq<u8>) -> nat
    decreases b.len(),
{
    if b.len() == 0 {
        0nat
    } else if b[0] == 47 {
        0nat
    } else {
        1 + spec_first_sep(b.drop_first())
    }
}

/// The first separator is the first.
pub proof fn lemma_first_sep(b: Seq<u8>)
    ensures
        0 <= spec_first_sep(b) <= b.len(),
        spec_first_sep(b) < b.len() ==> b[spec_first_sep(b) as int] == 47,
        forall|k: int| 0 <= k < spec_first_sep(b) ==> b[k] != 47,
    decreases b.len(),
{
    if b.len() > 0 && b[0] != 47 {
        lemma_first_sep(b.drop_first());
        assert(forall|k: int| 0 <= k < b.len() - 1 ==> b.drop_first()[k] == b[k + 1]);
        assert forall|k: int| 0 <= k < spec_first_sep(b) implies b[k] != 47 by {
            if k > 0 {
                assert(b.drop_first()[k - 1] != 47);
            }
        };
    }
}

/// Whether a segment names a channel: the literal prefix and at least one
/// decimal digit. (The numeric range and the port identifier charset of
/// the outside parser are not modeled.)
pub open spec fn is_channel_seg(s: Seq<u8>) -> bool {
    &&& s.len() > 8
    &&& s.take(8) == seq![99u8, 104u8, 97u8, 110u8, 110u8, 101u8, 108u8, 45u8]
    &&& forall|k: int| 8 <= k < s.len() ==> 48 <= #[trigger] s[k] <= 57
}

/// The bytes the leading trace path occupies: port/channel pairs are
/// consumed greedily from the front, each with its trailing separator.
pub open spec fn spec_trace_pairs(b: Seq<u8>) -> int
    decreases b.len(),
{
    let i = spec_first_sep(b) as int;
    if i == 0 || i >= b.len() {
        0int
    } else {
        let rest1 = b.skip(i + 1);
        let j = spec_first_sep(rest1) as int;
        if is_channel_seg(rest1.take(j)) {
            if j >= rest1.len() {
                b.len() as int
            } else {
                let consumed = i + 1 + j + 1;
                consumed + spec_trace_pairs(b.skip(consumed))
            }
        } else {
            0int
        }
    }
}

/// Finds the first separator at or after a position.
fn find_sep(bytes: &Vec<u8>, from: usize) -> (r: usize)
    requires
        from <= bytes@.len(),
    ensures
        r - from == spec_first_sep(bytes@.skip(from as int)),
        from <= r <= bytes@.len(),
        r < bytes@.len() ==> bytes@[r as int] == 47,
        forall|k: int| from <= k < r ==> bytes@[k] != 47,
{
    let ghost s = bytes@.skip(from as int);
    proof {
        lemma_first_sep(s);
    }
    let n = bytes.len();
    let mut i = from;
    while i < n && bytes[i] != 47
        invariant
            from <= i <= n,
            n == bytes@.len(),
            s == bytes@.skip(from as int),
            forall|k: int| from <= k < i ==> bytes@[k] != 47,
        decreases n - i,
    {
        i = i + 1;
    }
    proof {
        assert(forall|k: int| 0 <= k < i - from ==> s[k] == bytes@[k + from]);
        if i < n {
            lemma_first_sep_at(s, i - from);
        } else {
            lemma_first_sep_none(s);
        }
    }
    i
}

/// An index holding a separator with none before it is the first one.
proof fn lemma_first_sep_at(b: Seq<u8>, i: int)
    requires
        0 <= i < b.len(),
        b[i] == 47,
        forall|k: int| 0 <= k < i ==> b[k] != 47,
    ensures
        spec_first_sep(b) == i,
    decreases i,
{
    if i > 0 {
        assert(forall|k: int| 0 <= k < b.len() - 1 ==> b.drop_first()[k] == b[k + 1]);
        lemma_first_sep_at(b.drop_first(), i - 1);
    }
}

/// A string without separators has none to find.
proof fn lemma_first_sep_none(b: Seq<u8>)
    requires
        forall|k: int| 0 <= k < b.len() ==> b[k] != 47,
    ensures
        spec_first_sep(b) == b.len(),
    decreases b.len(),
{
    if b.len() > 0 {
        assert(forall|k: int| 0 <= k < b.len() - 1 ==> b.drop_first()[k] == b[k + 1]);
        lemma_first_sep_none(b.drop_first());
    }
}

/// Whether the bytes between two positions name a channel.
fn check_channel_seg(bytes: &Vec<u8>, from: usize, to: usize) -> (r: bool)
    requires
        from <= to <= bytes@.len(),
    ensures
        r == is_channel_seg(bytes@.subrange(from as int, to as int)),
{
    let ghost s = bytes@.subrange(from as int, to as int);
    if to - from <= 8 {
        return false;
    }
    for p in 0..8usize
        invariant
            from + 8 < to <= bytes@.len(),
            s == bytes@.subrange(from as int, to as int),
            forall|k: int| 0 <= k < p ==> s[k] == seq![
                99u8,
                104u8,
                97u8,
                110u8,
                110u8,
                101u8,
                108u8,
                45u8,
            ][k],
    {
        let expected: u8 = if p == 0 {
            99
        } else if p == 1 {
            104
        } else if p == 2 {
            97
        } else if p == 3 {
            110
        } else if p == 4 {
            110
        } else if p == 5 {
            101
        } else if p == 6 {
            108
        } else {
            45
        };
        if bytes[from + p] != expected {
            proof {
                assert(s[p as int] == bytes@[from + p]);
                assert(s.take(8)[p as int] == s[p as int]);
            }
            return false;
        }
        proof {
            assert(s[p as int] == bytes@[from + p]);
        }
    }
    proof {
        assert(s.take(8) =~= seq![99u8, 104u8, 97u8, 110u8, 110u8, 101u8, 108u8, 45u8]);
    }
    let mut k = from + 8;
    while k < to
        invariant
            from + 8 < to <= bytes@.len(),
            from + 8 <= k <= to,
            s == bytes@.subrange(from as int, to as int),
            s.take(8) == seq![99u8, 104u8, 97u8, 110u8, 110u8, 101u8, 108u8, 45u8],
            forall|j: int| 8 <= j < k - from ==> 48 <= #[trigger] s[j] <= 57,
        decreases to - k,
    {
        if bytes[k] < 48 || bytes[k] > 57 {
            proof {
                assert(s[k - from] == bytes@[k as int]);
            }
            return false;
        }
        proof {
            assert(s[k - from] == bytes@[k as int]);
        }
        k = k + 1;
    }
    true
}

/// Splits a denomination into its trace path and base token, if the
/// denomination carries a path: port and channel hops are consumed from
/// the front, and what remains (which may itself contain separators) is
/// the base token, returned undecoded. A denomination without leading
/// hops, or without a base after them, is no such path.
pub fn is_ibc_denom(denom: &str) -> (r: Option<(TracePath, Vec<u8>)>)
    ensures
        ({
            let b = denom.spec_bytes();
            let t = spec_trace_pairs(b);
            match r {
                Some((tp, base)) => {
                    &&& t > 0 && t < b.len()
                    &&& tp.path@ == b.take(t - 1)
                    &&& base@ == b.skip(t)
                },
                None => t == 0 || t >= b.len(),
            }
        }),
{
    let bytes = denom.as_bytes_vec();
    let ghost b = denom.spec_bytes();
    let n = bytes.len();
    let mut done: usize = 0;
    let mut stopped = false;
    let mut to_end = false;
    proof {
        assert(b.skip(0) =~= b);
    }
    while !stopped && !to_end
        invariant
            n == b.len(),
            bytes@ == b,
            done <= n,
            !stopped && !to_end ==> spec_trace_pairs(b) == done + spec_trace_pairs(
                b.skip(done as int),
            ),
            stopped ==> spec_trace_pairs(b) == done,
            to_end ==> spec_trace_pairs(b) == b.len(),
        decreases n - done, (if stopped || to_end {
            0int
        } else {
            1int
        }),
    {
        let ghost rest = b.skip(done as int);
        let i = find_sep(&bytes, done);
        proof {
            assert(forall|k: int| 0 <= k < rest.len() ==> rest[k] == b[k + done]);
        }
        if i == done || i >= n {
            stopped = true;
            proof {
                assert(spec_first_sep(rest) == 0 || spec_first_sep(rest) >= rest.len());
                assert(spec_trace_pairs(rest) == 0);
            }
        } else {
            let j = find_sep(&bytes, i + 1);
            proof {
                assert(rest.skip((i + 1 - done) as int) =~= b.skip(i + 1));
                assert(rest.take((i - done) as int) =~= b.subrange(done as int, i as int));
            }
            let is_chan = check_channel_seg(&bytes, i + 1, j);
            proof {
                assert(b.skip(i + 1).take((j - i - 1) as int) =~= b.subrange(i + 1, j as int));
            }
            if !is_chan {
                stopped = true;
                proof {
                    assert(spec_trace_pairs(rest) == 0);
                }
            } else if j >= n {
                to_end = true;
                proof {
                    assert(spec_trace_pairs(rest) == rest.len());
                }
            } else {
                let ghost old_done = done as int;
                done = j + 1;
                proof {
                    assert(spec_trace_pairs(rest) == (done - old_done) + spec_trace_pairs(
                        b.skip(done as int),
                    )) by {
                        assert(rest.skip((done - old_done) as int) =~= b.skip(done as int));
                    };
                }
            }
        }
    }
    if to_end || done == 0 || done >= n {
        return None;
    }
    let mut path: Vec<u8> = Vec::new();
    for k in 0..(done - 1)
        invariant
            0 < done < n,
            n == b.len(),
            bytes@ == b,
            path@ =~= b.take(k as int),
    {
        path.push(bytes[k]);
        proof {
            assert(path@ =~= b.take(k + 1));
        }
    }
    let mut base: Vec<u8> = Vec::new();
    for k in done..n
        invariant
            0 < done < n,
            n == b.len(),
            bytes@ == b,
            base@ =~= b.subrange(done as int, k as int),
    {
        base.push(bytes[k]);
        proof {
            assert(base@ =~= b.subrange(done as int, k + 1));
        }
    }
    proof {
        assert(base@ =~= b.skip(done as int));
    }
    Some((TracePath { path }, base))
}

} // verus!
