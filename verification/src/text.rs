//! Decimal renderings of integers, shared by the error messages and the
//! debug-map text.

use vstd::prelude::*;

verus! {

/// The decimal digits of `n`.
pub open spec fn dec_u(n: nat) -> Seq<char>
    decreases n,
{
    if n < 10 {
        seq![((n + 48) as u8) as char]
    } else {
        dec_u(n / 10) + seq![(((n % 10) + 48) as u8) as char]
    }
}

/// The decimal rendering of `v`, with a leading minus sign when negative.
pub open spec fn dec_i(v: int) -> Seq<char> {
    if v < 0 {
        seq!['-'] + dec_u((0 - v) as nat)
    } else {
        dec_u(v as nat)
    }
}

/// One decimal digit as a string slice.
pub fn digit_str(d: u32) -> (r: &'static str)
    requires
        d < 10,
    ensures
        r@ == seq![((d + 48) as u8) as char],
{
    if d == 0 {
        proof {
            reveal_strlit("0");
            assert("0"@ =~= seq![(48u8) as char]);
        }
        "0"
    } else if d == 1 {
        proof {
            reveal_strlit("1");
            assert("1"@ =~= seq![(49u8) as char]);
        }
        "1"
    } else if d == 2 {
        proof {
            reveal_strlit("2");
            assert("2"@ =~= seq![(50u8) as char]);
        }
        "2"
    } else if d == 3 {
        proof {
            reveal_strlit("3");
            assert("3"@ =~= seq![(51u8) as char]);
        }
        "3"
    } else if d == 4 {
        proof {
            reveal_strlit("4");
            assert("4"@ =~= seq![(52u8) as char]);
        }
        "4"
    } else if d == 5 {
        proof {
            reveal_strlit("5");
            assert("5"@ =~= seq![(53u8) as char]);
        }
        "5"
    } else if d == 6 {
        proof {
            reveal_strlit("6");
            assert("6"@ =~= seq![(54u8) as char]);
        }
        "6"
    } else if d == 7 {
        proof {
            reveal_strlit("7");
            assert("7"@ =~= seq![(55u8) as char]);
        }
        "7"
    } else if d == 8 {
        proof {
            reveal_strlit("8");
            assert("8"@ =~= seq![(56u8) as char]);
        }
        "8"
    } else {
        proof {
            reveal_strlit("9");
            assert("9"@ =~= seq![(57u8) as char]);
        }
        "9"
    }
}

/// The decimal rendering of an unsigned 32-bit value.
pub fn u32_to_dec(n: u32) -> (r: String)
    ensures
        r@ == dec_u(n as nat),
    decreases n,
{
    if n < 10 {
        String::from_str(digit_str(n))
    } else {
        let mut s = u32_to_dec(n / 10);
        s.append(digit_str(n % 10));
        s
    }
}

/// The decimal rendering of a signed 32-bit value.
pub fn i32_to_dec(v: i32) -> (r: String)
    ensures
        r@ == dec_i(v as int),
{
    if v < 0 {
        let m: u32 = (-(v as i64)) as u32;
        let mut s = String::from_str("-");
        proof {
            reveal_strlit("-");
            assert("-"@ =~= seq!['-']);
        }
        s.append(u32_to_dec(m).as_str());
        s
    } else {
        u32_to_dec(v as u32)
    }
}

} // verus!
