//! Primitives of the canonical, length-prefixed wire encoding.
//!
//! Every multi-byte integer is laid out as little-endian base-256 digits;
//! a byte string is its 8-byte length followed by its contents. The spec
//! functions here are the single definition of the format: encoders append
//! exactly these sequences, and readers succeed exactly on buffers that
//! start with them.

use vstd::prelude::*;

verus! {

/// 256^n, the number of values an n-byte field can hold.
pub open spec fn pow256(n: nat) -> nat
    decreases n,
{
    if n == 0 {
        1
    } else {
        256 * pow256((n - 1) as nat)
    }
}

/// An unsigned integer as n little-endian base-256 digits.
pub open spec fn enc_le(x: nat, n: nat) -> Seq<u8>
    decreases n,
{
    if n == 0 {
        Seq::empty()
    } else {
        seq![(x % 256) as u8] + enc_le(x / 256, (n - 1) as nat)
    }
}

/// The integer denoted by little-endian base-256 digits.
pub open spec fn dec_le(s: Seq<u8>) -> nat
    decreases s.len(),
{
    if s.len() == 0 {
        0
    } else {
        s[0] as nat + 256 * dec_le(s.drop_first())
    }
}

/// A byte string: its length, then its contents.
pub open spec fn enc_bytes(b: Seq<u8>) -> Seq<u8> {
    enc_le(b.len(), 8) + b
}

/// Whether a buffer starts with 8 length bytes and that many content bytes.
pub open spec fn can_read_bytes(s: Seq<u8>) -> bool {
    s.len() >= 8 && 8 + dec_le(s.take(8)) <= s.len()
}

pub proof fn lemma_enc_le_len(x: nat, n: nat)
    ensures
        enc_le(x, n).len() == n,
    decreases n,
{
    if n > 0 {
        lemma_enc_le_len(x / 256, (n - 1) as nat);
    }
}

pub proof fn lemma_dec_le_bound(s: Seq<u8>)
    ensures
        dec_le(s) < pow256(s.len()),
    decreases s.len(),
{
    if s.len() > 0 {
        lemma_dec_le_bound(s.drop_first());
    }
}

/// Recovering the integer from its digits.
pub proof fn lemma_dec_enc_le(x: nat, n: nat)
    requires
        x < pow256(n),
    ensures
        dec_le(enc_le(x, n)) == x,
    decreases n,
{
    if n > 0 {
        lemma_enc_le_len(x / 256, (n - 1) as nat);
        assert(enc_le(x, n).drop_first() =~= enc_le(x / 256, (n - 1) as nat));
        assert(x / 256 < pow256((n - 1) as nat)) by {
            assert(x < 256 * pow256((n - 1) as nat));
        };
        lemma_dec_enc_le(x / 256, (n - 1) as nat);
    }
}

/// A length-prefixed byte string determines itself and the remainder of
/// any buffer it is a prefix of.
pub proof fn lemma_enc_bytes_prefix(a: Seq<u8>, b: Seq<u8>, ra: Seq<u8>, rb: Seq<u8>)
    requires
        a.len() < pow256(8),
        b.len() < pow256(8),
        enc_bytes(a) + ra == enc_bytes(b) + rb,
    ensures
        a == b,
        ra == rb,
{
    lemma_enc_le_len(a.len(), 8);
    lemma_enc_le_len(b.len(), 8);
    let s = enc_bytes(a) + ra;
    assert(s.take(8) =~= enc_le(a.len(), 8));
    assert(s.take(8) =~= enc_le(b.len(), 8));
    lemma_dec_le_bound(s.take(8));
    lemma_dec_enc_le(a.len(), 8);
    lemma_dec_enc_le(b.len(), 8);
    assert(a.len() == b.len());
    assert(a =~= s.subrange(8, 8 + a.len() as int));
    assert(b =~= s.subrange(8, 8 + b.len() as int));
    assert(ra =~= s.skip(8 + a.len() as int));
    assert(rb =~= s.skip(8 + b.len() as int));
}

/// A buffer that starts with a length-prefixed byte string can be read.
pub proof fn lemma_enc_bytes_can_read(b: Seq<u8>, rest: Seq<u8>)
    requires
        b.len() < pow256(8),
    ensures
        can_read_bytes(enc_bytes(b) + rest),
        (enc_bytes(b) + rest).take(8 + b.len() as int) == enc_bytes(b),
        dec_le((enc_bytes(b) + rest).take(8)) == b.len(),
{
    lemma_enc_le_len(b.len(), 8);
    let s = enc_bytes(b) + rest;
    assert(s.take(8) =~= enc_le(b.len(), 8));
    lemma_dec_le_bound(s.take(8));
    lemma_dec_enc_le(b.len(), 8);
    assert(s.take(8 + b.len() as int) =~= enc_bytes(b));
}

/// The width of a length field covers every vector that fits in memory.
pub proof fn lemma_pow256_8()
    ensures
        pow256(8) == 0x10000000000000000,
{
    reveal_with_fuel(pow256, 9);
}

/// Appends the contents of `b` to `out`.
pub fn push_all(out: &mut Vec<u8>, b: &Vec<u8>)
    ensures
        final(out)@ == old(out)@ + b@,
{
    let n: usize = b.len();
    for i in 0..n
        invariant
            n == b@.len(),
            out@ == old(out)@ + b@.take(i as int),
    {
        out.push(b[i]);
        assert(out@ =~= old(out)@ + b@.take(i + 1));
    }
    assert(out@ =~= old(out)@ + b@);
}

/// Appends the 8-byte little-endian digits of `x`.
pub fn write_u64(out: &mut Vec<u8>, x: u64)
    ensures
        final(out)@ == old(out)@ + enc_le(x as nat, 8),
{
    let mut cur: u64 = x;
    let ghost mut left: nat = 8;
    for i in 0..8usize
        invariant
            left == 8 - i,
            out@.len() == old(out)@.len() + i,
            enc_le(x as nat, 8) == out@.skip(old(out)@.len() as int) + enc_le(cur as nat, left),
            out@.take(old(out)@.len() as int) == old(out)@,
    {
        let ghost prev = out@;
        out.push((cur % 256) as u8);
        proof {
            assert(enc_le(cur as nat, left) =~= seq![(cur % 256) as u8] + enc_le(
                cur as nat / 256,
                (left - 1) as nat,
            ));
            left = (left - 1) as nat;
            assert(out@.skip(old(out)@.len() as int) =~= prev.skip(old(out)@.len() as int) + seq![
                (cur % 256) as u8,
            ]);
            assert(enc_le(x as nat, 8) =~= out@.skip(old(out)@.len() as int) + enc_le(
                cur as nat / 256,
                left,
            ));
            assert(out@.take(old(out)@.len() as int) =~= old(out)@);
        }
        cur = cur / 256;
    }
    proof {
        lemma_enc_le_len(x as nat, 8);
        assert(out@ =~= old(out)@ + out@.skip(old(out)@.len() as int));
        assert(out@.skip(old(out)@.len() as int) =~= enc_le(x as nat, 8));
    }
}

/// Appends a length-prefixed byte string.
pub fn write_bytes(out: &mut Vec<u8>, b: &Vec<u8>)
    ensures
        final(out)@ == old(out)@ + enc_bytes(b@),
{
    write_u64(out, b.len() as u64);
    push_all(out, b);
    assert(out@ =~= old(out)@ + enc_bytes(b@));
}

/// Reads one byte.
pub fn read_u8(buf: &Vec<u8>, pos: &mut usize) -> (r: Option<u8>)
    ensures
        r is Some <==> *old(pos) + 1 <= buf@.len(),
        r matches Some(x) ==> *final(pos) == *old(pos) + 1 && x == buf@[*old(pos) as int],
        r is None ==> *final(pos) == *old(pos),
{
    if *pos < buf.len() {
        let b = buf[*pos];
        *pos = *pos + 1;
        Some(b)
    } else {
        None
    }
}

/// Reads an 8-byte little-endian integer.
pub fn read_u64(buf: &Vec<u8>, pos: &mut usize) -> (r: Option<u64>)
    ensures
        r is Some <==> *old(pos) + 8 <= buf@.len(),
        r matches Some(x) ==> *final(pos) == *old(pos) + 8 && x as nat == dec_le(
            buf@.subrange(*old(pos) as int, *old(pos) + 8),
        ),
        r is None ==> *final(pos) == *old(pos),
{
    if buf.len() >= 8 && *pos <= buf.len() - 8 {
        let ghost s = buf@.subrange(*pos as int, *pos + 8);
        let mut acc: u64 = 0;
        let mut j: usize = 8;
        while j > 0
            invariant
                j <= 8,
                *pos + 8 <= buf@.len(),
                buf@.len() <= usize::MAX,
                s == buf@.subrange(*pos as int, *pos + 8),
                acc as nat == dec_le(s.skip(j as int)),
            decreases j,
        {
            proof {
                lemma_dec_le_bound(s.skip(j as int));
                assert(s.skip(j as int).len() == 8 - j);
                assert(pow256((8 - j) as nat) * 256 <= pow256(8)) by {
                    lemma_pow256_monotone((9 - j) as nat, 8);
                };
                assert(acc as nat * 256 + 255 < pow256(8)) by {
                    assert(acc as nat <= pow256((8 - j) as nat) - 1);
                    assert(acc as nat * 256 <= (pow256((8 - j) as nat) - 1) * 256) by (nonlinear_arith)
                        requires
                            acc as nat <= pow256((8 - j) as nat) - 1,
                    ;
                };
                assert(pow256(8) == 0x10000000000000000) by {
                    reveal_with_fuel(pow256, 9);
                };
            }
            j = j - 1;
            let b = buf[*pos + j];
            acc = acc * 256 + (b as u64);
            proof {
                let t = s.skip(j as int);
                assert(t.len() == 8 - j);
                assert(t[0] == b);
                assert(t.drop_first() =~= s.skip(j + 1));
                assert(dec_le(t) == b as nat + 256 * dec_le(s.skip(j + 1)));
            }
        }
        proof {
            assert(s.skip(0) =~= s);
        }
        *pos = *pos + 8;
        Some(acc)
    } else {
        None
    }
}

proof fn lemma_pow256_monotone(m: nat, n: nat)
    requires
        m <= n,
    ensures
        pow256(m) <= pow256(n),
    decreases n,
{
    if m < n && n > 0 {
        lemma_pow256_monotone(m, (n - 1) as nat);
        assert(pow256((n - 1) as nat) <= 256 * pow256((n - 1) as nat)) by (nonlinear_arith)
            requires
                pow256((n - 1) as nat) >= 0,
        ;
    }
}

/// Reads a length-prefixed byte string.
pub fn read_bytes(buf: &Vec<u8>, pos: &mut usize) -> (r: Option<Vec<u8>>)
    requires
        *old(pos) <= buf@.len(),
    ensures
        r is Some <==> can_read_bytes(buf@.skip(*old(pos) as int)),
        r matches Some(b) ==> {
            &&& *final(pos) == *old(pos) + 8 + b@.len()
            &&& *final(pos) <= buf@.len()
            &&& buf@.subrange(*old(pos) as int, *final(pos) as int) == enc_bytes(b@)
        },
        r is None ==> *final(pos) == *old(pos) || *final(pos) == *old(pos) + 8,
{
    let ghost s = buf@.skip(*pos as int);
    let start: usize = *pos;
    match read_u64(buf, pos) {
        Some(len) => {
            proof {
                assert(s.take(8) =~= buf@.subrange(start as int, start + 8));
                assert(dec_le(s.take(8)) == len as nat);
            }
            let remaining: usize = buf.len() - *pos;
            if len <= remaining as u64 {
                let n: usize = len as usize;
                let mut b: Vec<u8> = Vec::new();
                let base: usize = *pos;
                for i in 0..n
                    invariant
                        base + n <= buf@.len(),
                        buf@.len() <= usize::MAX,
                        b@ =~= buf@.subrange(base as int, base + i),
                {
                    b.push(buf[base + i]);
                    assert(b@ =~= buf@.subrange(base as int, base + i + 1));
                }
                *pos = base + n;
                proof {
                    assert(can_read_bytes(s));
                    assert(b@.len() == len as nat);
                    lemma_le_digits_unique(buf@.subrange(start as int, start + 8), len as nat);
                    assert(buf@.subrange(start as int, start + 8) =~= enc_le(b@.len(), 8));
                    assert(buf@.subrange(start as int, (base + n) as int) =~= buf@.subrange(
                        start as int,
                        start + 8,
                    ) + buf@.subrange(base as int, base + n));
                    assert(buf@.subrange(start as int, (base + n) as int) =~= enc_bytes(b@));
                }
                Some(b)
            } else {
                proof {
                    assert(!can_read_bytes(s));
                }
                None
            }
        },
        None => {
            proof {
                assert(s.len() < 8);
                assert(!can_read_bytes(s));
            }
            None
        },
    }
}

proof fn lemma_enc_le_agree(x: nat, y: nat, n: nat)
    requires
        x == y,
    ensures
        enc_le(x, n) == enc_le(y, n),
{
}

/// Digit strings of equal length denoting the same value are equal.
proof fn lemma_le_digits_unique(s: Seq<u8>, x: nat)
    requires
        s.len() == 8,
        dec_le(s) == x,
    ensures
        s == enc_le(x, 8),
{
    lemma_le_digits_unique_n(s, x, 8);
}

proof fn lemma_le_digits_unique_n(s: Seq<u8>, x: nat, n: nat)
    requires
        s.len() == n,
        dec_le(s) == x,
    ensures
        s == enc_le(x, n),
    decreases n,
{
    if n == 0 {
        assert(s =~= enc_le(x, 0));
    } else {
        let rest = s.drop_first();
        assert(dec_le(s) == s[0] as nat + 256 * dec_le(rest));
        assert(x % 256 == s[0] as nat && x / 256 == dec_le(rest)) by (nonlinear_arith)
            requires
                x == s[0] as nat + 256 * dec_le(rest),
                0 <= s[0] < 256,
        ;
        lemma_le_digits_unique_n(rest, dec_le(rest), (n - 1) as nat);
        assert(s =~= seq![s[0]] + rest);
        assert(enc_le(x, n) == seq![(x % 256) as u8] + enc_le(x / 256, (n - 1) as nat));
        assert(s =~= enc_le(x, n));
    }
}

/// Whether two byte vectors hold the same bytes.
pub fn bytes_eq(a: &Vec<u8>, b: &Vec<u8>) -> (r: bool)
    ensures
        r <==> a@ == b@,
{
    if a.len() != b.len() {
        assert(a@.len() != b@.len());
        return false;
    }
    let n = a.len();
    for i in 0..n
        invariant
            n == a@.len() && n == b@.len(),
            forall|k: int| 0 <= k < i ==> a@[k] == b@[k],
    {
        if a[i] != b[i] {
            return false;
        }
    }
    proof {
        assert(a@ =~= b@);
    }
    true
}

// The spec-level readers below mirror the exec readers exactly: each takes
// the unread remainder of a buffer and yields the parsed value with the
// number of bytes it occupies, or nothing when the buffer does not start
// with a well-formed field. The exec readers' contracts are stated in terms
// of these, so decoding is pinned down as a function of the bytes.


/// Spec reader for one byte.
pub open spec fn sdec_u8(s: Seq<u8>) -> Option<(u8, int)> {
    if s.len() >= 1 {
        Some((s[0], 1int))
    } else {
        None
    }
}

/// Spec reader for an 8-byte little-endian integer.
pub open spec fn sdec_u64(s: Seq<u8>) -> Option<(u64, int)> {
    if s.len() >= 8 {
        Some(((dec_le(s.take(8)) as u64), 8int))
    } else {
        None
    }
}

/// Spec reader for a length-prefixed byte string.
pub open spec fn sdec_bytes(s: Seq<u8>) -> Option<(Seq<u8>, int)> {
    if can_read_bytes(s) {
        let n = dec_le(s.take(8)) as int;
        Some((s.subrange(8, 8 + n), 8 + n))
    } else {
        None
    }
}

/// An optional byte string: a presence tag, then the contents if any.
pub open spec fn enc_opt_bytes(o: Option<Seq<u8>>) -> Seq<u8> {
    match o {
        None => seq![0u8],
        Some(b) => seq![1u8] + enc_bytes(b),
    }
}

/// Spec reader for an optional byte string.
pub open spec fn sdec_opt_bytes(s: Seq<u8>) -> Option<(Option<Seq<u8>>, int)> {
    match sdec_u8(s) {
        None => None,
        Some((tag, _i)) => if tag == 0 {
            Some((None, 1int))
        } else if tag == 1 {
            match sdec_bytes(s.skip(1)) {
                None => None,
                Some((b, j)) => Some((Some(b), 1 + j)),
            }
        } else {
            None
        },
    }
}

/// The view of an optional byte vector.
pub open spec fn view_opt(o: Option<Vec<u8>>) -> Option<Seq<u8>> {
    match o {
        None => None,
        Some(v) => Some(v@),
    }
}

/// Reading an encoded integer yields the integer back.
pub proof fn lemma_sdec_u64_enc(x: u64, rest: Seq<u8>)
    ensures
        sdec_u64(enc_le(x as nat, 8) + rest) == Some((x, 8int)),
{
    lemma_enc_le_len(x as nat, 8);
    let s = enc_le(x as nat, 8) + rest;
    assert(s.take(8) =~= enc_le(x as nat, 8));
    lemma_pow256_8();
    lemma_dec_enc_le(x as nat, 8);
}

/// Reading an encoded byte string yields the byte string back.
pub proof fn lemma_sdec_bytes_enc(b: Seq<u8>, rest: Seq<u8>)
    requires
        b.len() < pow256(8),
    ensures
        sdec_bytes(enc_bytes(b) + rest) == Some((b, 8 + b.len() as int)),
{
    lemma_enc_bytes_can_read(b, rest);
    let s = enc_bytes(b) + rest;
    lemma_enc_le_len(b.len(), 8);
    assert(s.subrange(8, 8 + b.len() as int) =~= b);
}

/// Reading an encoded optional byte string yields the option back.
pub proof fn lemma_sdec_opt_bytes_enc(o: Option<Seq<u8>>, rest: Seq<u8>)
    requires
        o matches Some(b) ==> b.len() < pow256(8),
    ensures
        sdec_opt_bytes(enc_opt_bytes(o) + rest) == Some((o, enc_opt_bytes(o).len() as int)),
{
    let s = enc_opt_bytes(o) + rest;
    match o {
        None => {
            assert(s[0] == 0u8);
        },
        Some(b) => {
            assert(s[0] == 1u8);
            assert(s.skip(1) =~= enc_bytes(b) + rest);
            lemma_sdec_bytes_enc(b, rest);
            lemma_enc_le_len(b.len(), 8);
            assert(enc_opt_bytes(o).len() == 9 + b.len());
        },
    }
}

/// Appends an optional byte string.
pub fn write_opt_bytes(out: &mut Vec<u8>, o: &Option<Vec<u8>>)
    ensures
        final(out)@ == old(out)@ + enc_opt_bytes(view_opt(*o)),
{
    match o {
        None => {
            out.push(0u8);
            assert(out@ =~= old(out)@ + enc_opt_bytes(view_opt(*o)));
        },
        Some(b) => {
            out.push(1u8);
            let ghost mid = out@;
            write_bytes(out, b);
            assert(out@ =~= old(out)@ + enc_opt_bytes(view_opt(*o)));
        },
    }
}

/// Reads an optional byte string.
pub fn read_opt_bytes(buf: &Vec<u8>, pos: &mut usize) -> (r: Option<Option<Vec<u8>>>)
    requires
        *old(pos) <= buf@.len(),
    ensures
        r matches Some(o) ==> {
            &&& *old(pos) <= *final(pos) <= buf@.len()
            &&& sdec_opt_bytes(buf@.skip(*old(pos) as int)) == Some((view_opt(o), *final(pos) - *old(pos)))
        },
        r is None ==> sdec_opt_bytes(buf@.skip(*old(pos) as int)) is None,
{
    let ghost s = buf@.skip(*old(pos) as int);
    let start: usize = *pos;
    match read_u8(buf, pos) {
        None => {
            proof {
                assert(s.len() == 0);
            }
            None
        },
        Some(tag) => {
            proof {
                assert(s[0] == tag);
            }
            if tag == 0 {
                Some(None)
            } else if tag == 1 {
                proof {
                    assert(s.skip(1) =~= buf@.skip(start + 1));
                }
                match read_bytes(buf, pos) {
                    None => {
                        proof {
                            assert(sdec_bytes(s.skip(1)) is None);
                        }
                        None
                    },
                    Some(b) => {
                        proof {
                            let q = *pos as int;
                            assert(buf@.subrange(start + 1, q) == enc_bytes(b@));
                            assert(buf@.skip(start + 1) =~= enc_bytes(b@) + buf@.skip(q));
                            assert(b@.len() < pow256(8)) by {
                                lemma_pow256_8();
                            };
                            lemma_sdec_bytes_enc(b@, buf@.skip(q));
                            assert(sdec_bytes(buf@.skip(start + 1)) == Some((b@, 8 + b@.len() as int)));
                        }
                        Some(Some(b))
                    },
                }
            } else {
                None
            }
        },
    }
}


/// The views of a vector of byte vectors.
pub open spec fn view_seqs(v: Seq<Vec<u8>>) -> Seq<Seq<u8>> {
    Seq::new(v.len(), |i: int| v[i]@)
}

/// The items of a list, each length-prefixed, in order.
pub open spec fn enc_items(items: Seq<Seq<u8>>) -> Seq<u8>
    decreases items.len(),
{
    if items.len() == 0 {
        Seq::empty()
    } else {
        enc_bytes(items[0]) + enc_items(items.drop_first())
    }
}

/// A list of byte strings: the count, then the items, each length-prefixed.
pub open spec fn enc_list(items: Seq<Seq<u8>>) -> Seq<u8> {
    enc_le(items.len(), 8) + enc_items(items)
}

/// Spec reader for `n` length-prefixed items.
pub open spec fn sdec_items(s: Seq<u8>, n: nat) -> Option<(Seq<Seq<u8>>, int)>
    decreases n,
{
    if n == 0 {
        Some((Seq::empty(), 0int))
    } else {
        if sdec_bytes(s) is None {
            None
        } else {
            let (b, i) = sdec_bytes(s)->Some_0;
            if sdec_items(s.skip(i), (n - 1) as nat) is None {
                None
            } else {
                let (rest, j) = sdec_items(s.skip(i), (n - 1) as nat)->Some_0;
                Some((seq![b] + rest, i + j))
            }
        }
    }
}

/// Spec reader for a whole list.
pub open spec fn sdec_list(s: Seq<u8>) -> Option<(Seq<Seq<u8>>, int)> {
    if sdec_u64(s) is None {
        None
    } else {
        let (n, _i) = sdec_u64(s)->Some_0;
        if sdec_items(s.skip(8), n as nat) is None {
            None
        } else {
            let (items, j) = sdec_items(s.skip(8), n as nat)->Some_0;
            Some((items, 8 + j))
        }
    }
}

/// Whether every item of a list fits under its length prefix.
pub open spec fn wf_items(items: Seq<Seq<u8>>) -> bool {
    forall|i: int| 0 <= i < items.len() ==> (#[trigger] items[i]).len() < pow256(8)
}

/// Reading encoded items yields the items back.
pub proof fn lemma_sdec_items_enc(items: Seq<Seq<u8>>, rest: Seq<u8>)
    requires
        wf_items(items),
    ensures
        sdec_items(enc_items(items) + rest, items.len()) == Some(
            (items, enc_items(items).len() as int),
        ),
    decreases items.len(),
{
    if items.len() == 0 {
        assert(enc_items(items) + rest =~= rest);
        assert(items =~= Seq::<Seq<u8>>::empty());
    } else {
        let s = enc_items(items) + rest;
        let tail = items.drop_first();
        assert(s =~= enc_bytes(items[0]) + (enc_items(tail) + rest));
        lemma_sdec_bytes_enc(items[0], enc_items(tail) + rest);
        lemma_enc_le_len(items[0].len(), 8);
        let i = 8 + items[0].len() as int;
        assert(s.skip(i) =~= enc_items(tail) + rest);
        assert(wf_items(tail));
        lemma_sdec_items_enc(tail, rest);
        assert(seq![items[0]] + tail =~= items);
    }
}

/// Reading an encoded list yields the list back.
pub proof fn lemma_sdec_list_enc(items: Seq<Seq<u8>>, rest: Seq<u8>)
    requires
        wf_items(items),
        items.len() < pow256(8),
    ensures
        sdec_list(enc_list(items) + rest) == Some((items, enc_list(items).len() as int)),
{
    let s = enc_list(items) + rest;
    assert(s =~= enc_le(items.len(), 8) + (enc_items(items) + rest));
    lemma_pow256_8();
    lemma_sdec_u64_enc(items.len() as u64, enc_items(items) + rest);
    lemma_enc_le_len(items.len(), 8);
    assert(s.skip(8) =~= enc_items(items) + rest);
    lemma_sdec_items_enc(items, rest);
}

/// Appends a list of byte strings.
pub fn write_list(out: &mut Vec<u8>, items: &Vec<Vec<u8>>)
    ensures
        final(out)@ == old(out)@ + enc_list(view_seqs(items@)),
{
    write_u64(out, items.len() as u64);
    let n = items.len();
    for i in 0..n
        invariant
            n == items@.len(),
            out@ == old(out)@ + enc_le(n as nat, 8) + enc_items(view_seqs(items@.take(i as int))),
    {
        let ghost before = view_seqs(items@.take(i as int));
        write_bytes(out, &items[i]);
        proof {
            let now = view_seqs(items@.take(i + 1));
            lemma_enc_items_push(before, items@[i as int]@);
            assert(now =~= before.push(items@[i as int]@));
            assert(out@ =~= old(out)@ + enc_le(n as nat, 8) + enc_items(now));
        }
    }
    proof {
        assert(view_seqs(items@.take(n as int)) =~= view_seqs(items@));
        assert(out@ =~= old(out)@ + enc_list(view_seqs(items@)));
    }
}

/// Appending one item extends the encoded items by its encoding.
pub proof fn lemma_enc_items_push(items: Seq<Seq<u8>>, item: Seq<u8>)
    ensures
        enc_items(items.push(item)) == enc_items(items) + enc_bytes(item),
    decreases items.len(),
{
    if items.len() == 0 {
        let p = items.push(item);
        assert(p[0] == item);
        assert(p.drop_first() =~= Seq::<Seq<u8>>::empty());
        assert(enc_items(p) == enc_bytes(p[0]) + enc_items(p.drop_first()));
        assert(enc_items(Seq::<Seq<u8>>::empty()) == Seq::<u8>::empty());
        assert(enc_items(p) =~= enc_bytes(item));
        assert(enc_items(items) + enc_bytes(item) =~= enc_bytes(item));
    } else {
        let p = items.push(item);
        assert(p[0] == items[0]);
        assert(p.drop_first() =~= items.drop_first().push(item));
        lemma_enc_items_push(items.drop_first(), item);
        assert(enc_items(p) =~= enc_items(items) + enc_bytes(item));
    }
}

/// Reads a list of byte strings.
pub fn read_list(buf: &Vec<u8>, pos: &mut usize) -> (r: Option<Vec<Vec<u8>>>)
    requires
        *old(pos) <= buf@.len(),
    ensures
        r matches Some(items) ==> {
            &&& *old(pos) <= *final(pos) <= buf@.len()
            &&& sdec_list(buf@.skip(*old(pos) as int)) == Some(
                (view_seqs(items@), *final(pos) - *old(pos)),
            )
        },
        r is None ==> sdec_list(buf@.skip(*old(pos) as int)) is None,
{
    let ghost s = buf@.skip(*old(pos) as int);
    let start: usize = *pos;
    let n64 = match read_u64(buf, pos) {
        Some(v) => v,
        None => {
            proof {
                assert(s.len() < 8);
            }
            return None;
        },
    };
    proof {
        assert(s.take(8) =~= buf@.subrange(start as int, start + 8));
        assert(sdec_u64(s) == Some((n64, 8int)));
    }
    if n64 > buf.len() as u64 {
        // Each item takes at least one byte of length prefix, so a count
        // beyond the buffer cannot be read; a bounded loop counter follows.
        proof {
            lemma_sdec_items_too_many(buf@.skip(*pos as int), n64 as nat);
            assert(buf@.skip(start + 8) =~= s.skip(8));
        }
        return None;
    }
    let n = n64 as usize;
    let mut items: Vec<Vec<u8>> = Vec::new();
    let ghost base = *pos as int;
    proof {
        if sdec_items(buf@.skip(base), n as nat) is Some {
            let (r0, _j0) = sdec_items(buf@.skip(base), n as nat)->Some_0;
            assert(view_seqs(items@) + r0 =~= r0);
        }
    }
    for i in 0..n
        invariant
            base <= *pos <= buf@.len(),
            items@.len() == i,
            sdec_u64(s) == Some((n64, 8int)),
            n == n64 as nat,
            base == *old(pos) + 8,
            s == buf@.skip(*old(pos) as int),
            sdec_items(buf@.skip(base), n as nat) == (match sdec_items(
                buf@.skip(*pos as int),
                (n - i) as nat,
            ) {
                None => None::<(Seq<Seq<u8>>, int)>,
                Some((rest, j)) => Some((view_seqs(items@) + rest, *pos - base + j)),
            }),
    {
        let ghost p0 = *pos as int;
        let ghost old_items = items@;
        let item = match read_bytes(buf, pos) {
            Some(b) => b,
            None => {
                proof {
                    assert(sdec_items(buf@.skip(p0), (n - i) as nat) is None);
                    assert(sdec_list(s) is None) by {
                        assert(buf@.skip(base) =~= s.skip(8));
                    };
                }
                return None;
            },
        };
        proof {
            let p1 = *pos as int;
            assert(buf@.subrange(p0, p1) == enc_bytes(item@));
            assert(buf@.skip(p0) =~= enc_bytes(item@) + buf@.skip(p1));
            assert(item@.len() < pow256(8)) by {
                lemma_pow256_8();
            };
            lemma_sdec_bytes_enc(item@, buf@.skip(p1));
            lemma_enc_le_len(item@.len(), 8);
            assert(sdec_bytes(buf@.skip(p0)) == Some((item@, p1 - p0)));
            assert(buf@.skip(p0).skip(p1 - p0) =~= buf@.skip(p1));
        }
        items.push(item);
        proof {
            let p1 = *pos as int;
            assert(buf@.skip(p0).skip(p1 - p0) =~= buf@.skip(p1));
            assert(items@ =~= old_items.push(item));
            assert(view_seqs(items@) =~= view_seqs(old_items).push(item@));
            if sdec_items(buf@.skip(p1), (n - i - 1) as nat) is Some {
                let (r, j) = sdec_items(buf@.skip(p1), (n - i - 1) as nat)->Some_0;
                assert(sdec_items(buf@.skip(p0), (n - i) as nat) == Some(
                    (seq![item@] + r, (p1 - p0) + j),
                ));
                assert(view_seqs(old_items) + (seq![item@] + r) =~= view_seqs(items@) + r);
            } else {
                assert(sdec_items(buf@.skip(p0), (n - i) as nat) is None);
            }
        }
    }
    proof {
        assert(sdec_items(buf@.skip(*pos as int), 0nat) == Some((Seq::<Seq<u8>>::empty(), 0int)));
        assert(view_seqs(items@) + Seq::<Seq<u8>>::empty() =~= view_seqs(items@));
        assert(buf@.skip(base) =~= s.skip(8));
        assert(sdec_list(s) == Some((view_seqs(items@), *pos - start)));
    }
    Some(items)
}

/// More items than bytes cannot be read: each item takes at least 8 bytes.
proof fn lemma_sdec_items_too_many(s: Seq<u8>, n: nat)
    requires
        n > s.len(),
    ensures
        sdec_items(s, n) is None,
    decreases n,
{
    if sdec_bytes(s) is Some {
        let (b, i) = sdec_bytes(s)->Some_0;
        assert(i >= 8);
        if n - 1 > s.skip(i).len() {
            lemma_sdec_items_too_many(s.skip(i), (n - 1) as nat);
        }
    }
}


/// Encoded items are no longer than their count times the item bound.
pub proof fn lemma_enc_items_len_bound(items: Seq<Seq<u8>>, cap: nat)
    requires
        forall|i: int| 0 <= i < items.len() ==> (#[trigger] items[i]).len() <= cap,
    ensures
        enc_items(items).len() <= items.len() * (8 + cap),
    decreases items.len(),
{
    if items.len() == 0 {
    } else {
        let tail = items.drop_first();
        lemma_enc_items_len_bound(tail, cap);
        lemma_enc_le_len(items[0].len(), 8);
        assert(enc_items(items).len() <= (8 + cap) + tail.len() * (8 + cap));
        assert((8 + cap) + tail.len() * (8 + cap) == items.len() * (8 + cap)) by (nonlinear_arith)
            requires
                items.len() == tail.len() + 1,
        ;
    }
}

} // verus!
