//! Decimal rendering of exact values.
//!
//! The `output` statement prints the bare decimal integer when the value is
//! integral, and the exact fraction `num/den` otherwise (the library
//! computes with exact rationals, so a non-integral value is rendered
//! exactly rather than rounded). The special values render as `inf`,
//! `-inf` and `NaN`.

use vstd::prelude::*;

verus! {

use crate::num::Num;

/// The character for one decimal digit.
pub open spec fn digit_char(d: nat) -> char {
    if d == 0 {
        '0'
    } else if d == 1 {
        '1'
    } else if d == 2 {
        '2'
    } else if d == 3 {
        '3'
    } else if d == 4 {
        '4'
    } else if d == 5 {
        '5'
    } else if d == 6 {
        '6'
    } else if d == 7 {
        '7'
    } else if d == 8 {
        '8'
    } else {
        '9'
    }
}

/// The decimal digits of a natural number, most significant first.
pub open spec fn spec_digits(n: nat) -> Seq<char>
    decreases n,
{
    if n < 10 {
        seq![digit_char(n)]
    } else {
        spec_digits(n / 10).push(digit_char(n % 10))
    }
}

/// The decimal rendering of an integer: its digits, with a leading minus
/// sign when it is negative.
pub open spec fn spec_int_text(v: int) -> Seq<char> {
    if v >= 0 {
        spec_digits(v as nat)
    } else {
        seq!['-'] + spec_digits((-v) as nat)
    }
}

/// The line of text that `output` prints for a value: the bare integer
/// when the value is integral, `num/den` for any other fraction, and the
/// names of the special values.
pub open spec fn spec_num_text(v: Num) -> Seq<char> {
    match v {
        Num::Rat { num, den } => if den == 1 {
            spec_int_text(num as int)
        } else {
            spec_int_text(num as int) + seq!['/'] + spec_digits(den as nat)
        },
        Num::PosInf => seq!['i', 'n', 'f'],
        Num::NegInf => seq!['-', 'i', 'n', 'f'],
        Num::NaN => seq!['N', 'a', 'N'],
    }
}

/// The one-character string for a decimal digit.
fn digit_str(d: u64) -> (r: &'static str)
    requires
        d < 10,
    ensures
        r@ == seq![digit_char(d as nat)],
{
    proof {
        reveal_strlit("0");
        reveal_strlit("1");
        reveal_strlit("2");
        reveal_strlit("3");
        reveal_strlit("4");
        reveal_strlit("5");
        reveal_strlit("6");
        reveal_strlit("7");
        reveal_strlit("8");
        reveal_strlit("9");
    }
    match d {
        0 => "0",
        1 => "1",
        2 => "2",
        3 => "3",
        4 => "4",
        5 => "5",
        6 => "6",
        7 => "7",
        8 => "8",
        _ => "9",
    }
}

/// The decimal digits of `n`, most significant first.
pub fn u64_text(n: u64) -> (r: String)
    ensures
        r@ == spec_digits(n as nat),
    decreases n,
{
    if n < 10 {
        String::from_str(digit_str(n))
    } else {
        let mut s = u64_text(n / 10);
        let d = digit_str(n % 10);
        s.append(d);
        proof {
            assert(spec_digits((n / 10) as nat) + seq![digit_char((n % 10) as nat)]
                =~= spec_digits((n / 10) as nat).push(digit_char((n % 10) as nat)));
        }
        s
    }
}

/// The decimal rendering of a 64-bit integer.
pub fn i64_text(v: i64) -> (r: String)
    ensures
        r@ == spec_int_text(v as int),
{
    if v >= 0 {
        u64_text(v as u64)
    } else {
        proof {
            reveal_strlit("-");
        }
        let mut s = String::from_str("-");
        let mag: u64 = (-(v as i128)) as u64;
        let t = u64_text(mag);
        s.append(t.as_str());
        proof {
            assert("-"@ =~= seq!['-']);
        }
        s
    }
}

/// The line of text that `output` prints for a value.
pub fn num_text(v: &Num) -> (r: String)
    requires
        v.wf(),
    ensures
        r@ == spec_num_text(*v),
{
    match *v {
        Num::NaN => {
            proof {
                reveal_strlit("NaN");
            }
            let s = String::from_str("NaN");
            proof {
                assert(s@ =~= seq!['N', 'a', 'N']);
            }
            s
        },
        Num::PosInf => {
            proof {
                reveal_strlit("inf");
            }
            let s = String::from_str("inf");
            proof {
                assert(s@ =~= seq!['i', 'n', 'f']);
            }
            s
        },
        Num::NegInf => {
            proof {
                reveal_strlit("-inf");
            }
            let s = String::from_str("-inf");
            proof {
                assert(s@ =~= seq!['-', 'i', 'n', 'f']);
            }
            s
        },
        Num::Rat { num, den } => {
            if den == 1 {
                i64_text(num)
            } else {
                let mut s = i64_text(num);
                proof {
                    reveal_strlit("/");
                }
                s.append("/");
                let d = u64_text(den as u64);
                s.append(d.as_str());
                proof {
                    assert("/"@ =~= seq!['/']);
                    assert(s@ =~= spec_int_text(num as int) + seq!['/'] + spec_digits(
                        den as nat,
                    ));
                }
                s
            }
        },
    }
}

} // verus!
