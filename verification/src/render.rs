//! Decimal and zero-padded digit rendering used by the cell normalizer.

use vstd::prelude::*;

verus! {

/// The character for one decimal digit (digits ten and above never arise;
/// the function is total so that specs stay simple).
pub open spec fn digit_char(d: nat) -> char {
    if d == 0 {
        '0'
    } else if d == 1 {
        '1'
    } else if d == 2 {
        '2'
    } else if d == 3 {
        '3'
    } else if d == 4 {
        '4'
    } else if d == 5 {
        '5'
    } else if d == 6 {
        '6'
    } else if d == 7 {
        '7'
    } else if d == 8 {
        '8'
    } else {
        '9'
    }
}

/// The decimal digits of `n`, most significant first, with no leading
/// zeros (a lone `'0'` for zero).
pub open spec fn dec_digits(n: nat) -> Seq<char>
    decreases n,
{
    if n < 10 {
        seq![digit_char(n)]
    } else {
        dec_digits(n / 10) + seq![digit_char(n % 10)]
    }
}

/// The decimal rendering of a signed value: a `'-'` before the magnitude
/// when negative.
pub open spec fn dec_int(i: int) -> Seq<char> {
    if i < 0 {
        seq!['-'] + dec_digits((-i) as nat)
    } else {
        dec_digits(i as nat)
    }
}

/// `n` zero-padded to exactly two digits (meaningful for `n < 100`).
pub open spec fn two_digits(n: nat) -> Seq<char> {
    seq![digit_char(n / 10 % 10), digit_char(n % 10)]
}

/// `n` zero-padded to exactly four digits (meaningful for `n < 10000`).
pub open spec fn four_digits(n: nat) -> Seq<char> {
    seq![
        digit_char(n / 1000 % 10),
        digit_char(n / 100 % 10),
        digit_char(n / 10 % 10),
        digit_char(n % 10),
    ]
}

/// The one-character string for a decimal digit.
pub fn digit_str(d: u64) -> (r: &'static str)
    requires
        d < 10,
    ensures
        r@ == seq![digit_char(d as nat)],
{
    if d == 0 {
        proof {
            reveal_strlit("0");
            assert("0"@ =~= seq![digit_char(0)]);
        }
        "0"
    } else if d == 1 {
        proof {
            reveal_strlit("1");
            assert("1"@ =~= seq![digit_char(1)]);
        }
        "1"
    } else if d == 2 {
        proof {
            reveal_strlit("2");
            assert("2"@ =~= seq![digit_char(2)]);
        }
        "2"
    } else if d == 3 {
        proof {
            reveal_strlit("3");
            assert("3"@ =~= seq![digit_char(3)]);
        }
        "3"
    } else if d == 4 {
        proof {
            reveal_strlit("4");
            assert("4"@ =~= seq![digit_char(4)]);
        }
        "4"
    } else if d == 5 {
        proof {
            reveal_strlit("5");
            assert("5"@ =~= seq![digit_char(5)]);
        }
        "5"
    } else if d == 6 {
        proof {
            reveal_strlit("6");
            assert("6"@ =~= seq![digit_char(6)]);
        }
        "6"
    } else if d == 7 {
        proof {
            reveal_strlit("7");
            assert("7"@ =~= seq![digit_char(7)]);
        }
        "7"
    } else if d == 8 {
        proof {
            reveal_strlit("8");
            assert("8"@ =~= seq![digit_char(8)]);
        }
        "8"
    } else {
        proof {
            reveal_strlit("9");
            assert("9"@ =~= seq![digit_char(9)]);
        }
        "9"
    }
}

/// Renders an unsigned value in decimal.
pub fn render_u64(n: u64) -> (r: String)
    ensures
        r@ == dec_digits(n as nat),
    decreases n,
{
    if n < 10 {
        digit_str(n).to_owned()
    } else {
        let mut s = render_u64(n / 10);
        s.append(digit_str(n % 10));
        proof {
            assert(s@ =~= dec_digits(n as nat));
        }
        s
    }
}

/// Renders a signed value in decimal, matching the usual minus-prefixed
/// notation.
pub fn render_i64(i: i64) -> (r: String)
    ensures
        r@ == dec_int(i as int),
{
    if i >= 0 {
        render_u64(i as u64)
    } else {
        let wide: i128 = -(i as i128);
        assert(0 < wide <= u64::MAX);
        let mag: u64 = wide as u64;
        let mut s = "-".to_owned();
        s.append(render_u64(mag).as_str());
        proof {
            reveal_strlit("-");
            assert("-"@ =~= seq!['-']);
            assert(s@ =~= dec_int(i as int));
        }
        s
    }
}

/// Renders `n` zero-padded to two digits.
pub fn render_two(n: u8) -> (r: String)
    requires
        n < 100,
    ensures
        r@ == two_digits(n as nat),
{
    let mut s = digit_str((n / 10) as u64).to_owned();
    s.append(digit_str((n % 10) as u64));
    proof {
        assert(s@ =~= two_digits(n as nat));
    }
    s
}

/// Renders `n` zero-padded to four digits.
pub fn render_four(n: u16) -> (r: String)
    requires
        n < 10000,
    ensures
        r@ == four_digits(n as nat),
{
    let mut s = digit_str((n / 1000) as u64).to_owned();
    s.append(digit_str((n / 100 % 10) as u64));
    s.append(digit_str((n / 10 % 10) as u64));
    s.append(digit_str((n % 10) as u64));
    proof {
        assert(s@ =~= four_digits(n as nat));
    }
    s
}

} // verus!
