//! Decimal and hexadecimal rendering of numbers, for event attributes and
//! content-addressed keys.

use vstd::prelude::*;
use vstd::string::StringExecFns;

verus! {

/// The character of one decimal digit.
pub open spec fn digit_char(d: int) -> char {
    if d == 0 {
        '0'
    } else if d == 1 {
        '1'
    } else if d == 2 {
        '2'
    } else if d == 3 {
        '3'
    } else if d == 4 {
        '4'
    } else if d == 5 {
        '5'
    } else if d == 6 {
        '6'
    } else if d == 7 {
        '7'
    } else if d == 8 {
        '8'
    } else {
        '9'
    }
}

/// The decimal digits of a number, most significant first.
pub open spec fn spec_u64_chars(n: nat) -> Seq<char>
    decreases n,
{
    if n < 10 {
        seq![digit_char(n as int)]
    } else {
        spec_u64_chars(n / 10).push(digit_char((n % 10) as int))
    }
}

/// One decimal digit as a string slice.
fn digit_str(d: u64) -> (r: &'static str)
    requires
        d < 10,
    ensures
        r@ == seq![digit_char(d as int)],
{
    let s = if d == 0 {
        "0"
    } else if d == 1 {
        "1"
    } else if d == 2 {
        "2"
    } else if d == 3 {
        "3"
    } else if d == 4 {
        "4"
    } else if d == 5 {
        "5"
    } else if d == 6 {
        "6"
    } else if d == 7 {
        "7"
    } else if d == 8 {
        "8"
    } else {
        "9"
    };
    proof {
        reveal_strlit("0");
        reveal_strlit("1");
        reveal_strlit("2");
        reveal_strlit("3");
        reveal_strlit("4");
        reveal_strlit("5");
        reveal_strlit("6");
        reveal_strlit("7");
        reveal_strlit("8");
        reveal_strlit("9");
        assert(s@ =~= seq![digit_char(d as int)]);
    }
    s
}

/// Renders a number in decimal.
pub fn u64_to_string(n: u64) -> (r: String)
    ensures
        r@ == spec_u64_chars(n as nat),
{
    if n < 10 {
        let d = digit_str(n);
        let r = String::from_str(d);
        return r;
    }
    let mut acc = String::new();
    let mut cur: u64 = n;
    while cur > 0
        invariant
            cur > 0 ==> spec_u64_chars(n as nat) == spec_u64_chars(cur as nat) + acc@,
            cur == 0 ==> spec_u64_chars(n as nat) == acc@,
        decreases cur,
    {
        let d = digit_str(cur % 10);
        let head = String::from_str(d);
        let ghost old_acc = acc@;
        acc = head.concat(acc.as_str());
        proof {
            if cur >= 10 {
                assert(spec_u64_chars(cur as nat) =~= spec_u64_chars((cur / 10) as nat) + seq![
                    digit_char((cur % 10) as int),
                ]);
                assert(spec_u64_chars(n as nat) =~= spec_u64_chars((cur / 10) as nat) + acc@);
            } else {
                assert(spec_u64_chars(cur as nat) =~= seq![digit_char((cur % 10) as int)]);
                assert(spec_u64_chars(n as nat) =~= acc@);
            }
        }
        cur = cur / 10;
    }
    acc
}

/// The character of one hexadecimal digit, upper case.
pub open spec fn hex_char(d: int) -> char {
    if d < 10 {
        digit_char(d)
    } else if d == 10 {
        'A'
    } else if d == 11 {
        'B'
    } else if d == 12 {
        'C'
    } else if d == 13 {
        'D'
    } else if d == 14 {
        'E'
    } else {
        'F'
    }
}

/// The hexadecimal rendering of bytes, two digits each, in order.
pub open spec fn spec_hex_chars(b: Seq<u8>) -> Seq<char>
    decreases b.len(),
{
    if b.len() == 0 {
        Seq::empty()
    } else {
        spec_hex_chars(b.drop_last()) + seq![
            hex_char(b.last() as int / 16),
            hex_char(b.last() as int % 16),
        ]
    }
}

/// One hexadecimal digit as a string slice.
fn hex_digit_str(d: u8) -> (r: &'static str)
    requires
        d < 16,
    ensures
        r@ == seq![hex_char(d as int)],
{
    if d < 10 {
        digit_str(d as u64)
    } else {
        let s = if d == 10 {
            "A"
        } else if d == 11 {
            "B"
        } else if d == 12 {
            "C"
        } else if d == 13 {
            "D"
        } else if d == 14 {
            "E"
        } else {
            "F"
        };
        proof {
            reveal_strlit("A");
            reveal_strlit("B");
            reveal_strlit("C");
            reveal_strlit("D");
            reveal_strlit("E");
            reveal_strlit("F");
            assert(s@ =~= seq![hex_char(d as int)]);
        }
        s
    }
}

/// Renders bytes as upper-case hexadecimal.
pub fn bytes_to_hex_upper(b: &Vec<u8>) -> (r: String)
    ensures
        r@ == spec_hex_chars(b@),
{
    let mut acc = String::new();
    let n = b.len();
    proof {
        assert(b@.take(0) =~= Seq::<u8>::empty());
    }
    for i in 0..n
        invariant
            n == b@.len(),
            acc@ == spec_hex_chars(b@.take(i as int)),
    {
        let byte = b[i];
        let hi = hex_digit_str(byte / 16);
        acc.append(hi);
        let lo = hex_digit_str(byte % 16);
        acc.append(lo);
        proof {
            assert(b@.take(i + 1).drop_last() =~= b@.take(i as int));
            assert(b@.take(i + 1).last() == b@[i as int]);
            assert(acc@ =~= spec_hex_chars(b@.take(i + 1)));
        }
    }
    proof {
        assert(b@.take(n as int) =~= b@);
    }
    acc
}

} // verus!
