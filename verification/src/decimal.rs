//! Rendering an unsigned integer as its decimal string.

use vstd::prelude::*;
use vstd::string::StringExecFns;

verus! {

/// The character for a single decimal digit.
pub open spec fn spec_digit(d: nat) -> char {
    if d == 0 {
        '0'
    } else if d == 1 {
        '1'
    } else if d == 2 {
        '2'
    } else if d == 3 {
        '3'
    } else if d == 4 {
        '4'
    } else if d == 5 {
        '5'
    } else if d == 6 {
        '6'
    } else if d == 7 {
        '7'
    } else if d == 8 {
        '8'
    } else {
        '9'
    }
}

/// The decimal rendering of `n`: most significant digit first, no leading
/// zeros (except for `n == 0`, which renders as `"0"`).
pub open spec fn spec_decimal(n: nat) -> Seq<char>
    decreases n,
{
    if n < 10 {
        seq![spec_digit(n)]
    } else {
        spec_decimal(n / 10) + seq![spec_digit(n % 10)]
    }
}

/// The characters of the digits in `ds`, read back to front (so `ds` may be
/// collected least significant digit first).
spec fn rev_digit_chars(ds: Seq<u32>) -> Seq<char>
    decreases ds.len(),
{
    if ds.len() == 0 {
        Seq::empty()
    } else {
        seq![spec_digit(ds.last() as nat)] + rev_digit_chars(ds.drop_last())
    }
}

/// The one-character string for a single decimal digit.
fn digit_str(d: u32) -> (r: &'static str)
    requires
        d < 10,
    ensures
        r@ == seq![spec_digit(d as nat)],
{
    proof {
        reveal_strlit("0");
        reveal_strlit("1");
        reveal_strlit("2");
        reveal_strlit("3");
        reveal_strlit("4");
        reveal_strlit("5");
        reveal_strlit("6");
        reveal_strlit("7");
        reveal_strlit("8");
        reveal_strlit("9");
    }
    let r: &'static str = if d == 0 {
        "0"
    } else if d == 1 {
        "1"
    } else if d == 2 {
        "2"
    } else if d == 3 {
        "3"
    } else if d == 4 {
        "4"
    } else if d == 5 {
        "5"
    } else if d == 6 {
        "6"
    } else if d == 7 {
        "7"
    } else if d == 8 {
        "8"
    } else {
        "9"
    };
    proof {
        assert(r@ =~= seq![spec_digit(d as nat)]);
    }
    r
}

/// Renders `n` in decimal, most significant digit first.
pub fn u32_to_decimal(n: u32) -> (r: String)
    ensures
        r@ == spec_decimal(n as nat),
{
    if n == 0 {
        proof {
            reveal_strlit("0");
            assert("0"@ =~= seq![spec_digit(0)]);
        }
        return "0".to_owned();
    }
    let mut digits: Vec<u32> = Vec::new();
    let mut m: u32 = n;
    proof {
        assert(spec_decimal(n as nat) =~= spec_decimal(m as nat) + rev_digit_chars(digits@));
    }
    while m > 0
        invariant
            m > 0 ==> spec_decimal(n as nat) == spec_decimal(m as nat) + rev_digit_chars(
                digits@,
            ),
            m == 0 ==> spec_decimal(n as nat) == rev_digit_chars(digits@),
            forall|j: int| 0 <= j < digits@.len() ==> digits@[j] < 10,
        decreases m,
    {
        let ghost m0 = m as nat;
        let ghost ds0 = digits@;
        let d = m % 10;
        digits.push(d);
        m = m / 10;
        proof {
            assert(digits@.last() == d);
            assert(digits@.drop_last() =~= ds0);
            assert(rev_digit_chars(digits@) == seq![spec_digit(d as nat)] + rev_digit_chars(
                ds0,
            ));
            if m0 < 10 {
                assert(spec_decimal(m0) == seq![spec_digit(m0)]);
                assert(m == 0 && d as nat == m0);
                assert(spec_decimal(n as nat) =~= rev_digit_chars(digits@));
            } else {
                assert(spec_decimal(m0) == spec_decimal(m0 / 10) + seq![spec_digit(m0 % 10)]);
                assert(spec_decimal(n as nat) =~= spec_decimal(m as nat) + rev_digit_chars(
                    digits@,
                ));
            }
        }
    }
    let mut r = String::new();
    let mut i: usize = digits.len();
    proof {
        assert(digits@.take(i as int) =~= digits@);
        assert(r@ + rev_digit_chars(digits@) =~= rev_digit_chars(digits@));
    }
    while i > 0
        invariant
            i <= digits@.len(),
            forall|j: int| 0 <= j < digits@.len() ==> digits@[j] < 10,
            r@ + rev_digit_chars(digits@.take(i as int)) == spec_decimal(n as nat),
        decreases i,
    {
        let ghost r0 = r@;
        let ghost i0 = i as int;
        i = i - 1;
        let piece = digit_str(digits[i]);
        r.append(piece);
        proof {
            let taken = digits@.take(i0);
            assert(taken.last() == digits@[i0 - 1]);
            assert(taken.drop_last() =~= digits@.take(i0 - 1));
            assert(rev_digit_chars(taken) == seq![spec_digit(digits@[i0 - 1] as nat)]
                + rev_digit_chars(digits@.take(i0 - 1)));
            assert(r@ + rev_digit_chars(digits@.take(i as int)) =~= r0 + rev_digit_chars(
                taken,
            ));
        }
    }
    proof {
        assert(digits@.take(0) =~= Seq::<u32>::empty());
        assert(r@ + rev_digit_chars(digits@.take(0)) =~= r@);
    }
    r
}

} // verus!
