//! Names for completed frames: "Frame #1", "Frame #2", ... in completion
//! order.

use vstd::prelude::*;
use vstd::string::StringExecFns;

verus! {

/// The decimal digit character of `d` (for `d < 10`).
pub open spec fn digit_char(d: nat) -> char {
    if d == 0 {
        '0'
    } else if d == 1 {
        '1'
    } else if d == 2 {
        '2'
    } else if d == 3 {
        '3'
    } else if d == 4 {
        '4'
    } else if d == 5 {
        '5'
    } else if d == 6 {
        '6'
    } else if d == 7 {
        '7'
    } else if d == 8 {
        '8'
    } else {
        '9'
    }
}

/// The decimal digits of `n`, most significant first, without leading
/// zeros (except for `n == 0` itself).
pub open spec fn dec_chars(n: nat) -> Seq<char>
    decreases n,
{
    if n < 10 {
        seq![digit_char(n)]
    } else {
        dec_chars(n / 10).push(digit_char(n % 10))
    }
}

/// The name of the `n`-th completed frame of a run.
pub open spec fn spec_frame_label(n: nat) -> Seq<char> {
    "Frame #"@ + dec_chars(n)
}

/// The digit characters of `ds`, reversed: `ds` holds the digits least
/// significant first.
spec fn rev_digit_chars(ds: Seq<u64>) -> Seq<char> {
    Seq::new(ds.len(), |i: int| digit_char(ds[ds.len() - 1 - i] as nat))
}

fn digit_str(d: u64) -> (r: &'static str)
    requires
        d < 10,
    ensures
        r@ == seq![digit_char(d as nat)],
{
    if d == 0 {
        proof {
            reveal_strlit("0");
            assert("0"@ =~= seq![digit_char(0)]);
        }
        "0"
    } else if d == 1 {
        proof {
            reveal_strlit("1");
            assert("1"@ =~= seq![digit_char(1)]);
        }
        "1"
    } else if d == 2 {
        proof {
            reveal_strlit("2");
            assert("2"@ =~= seq![digit_char(2)]);
        }
        "2"
    } else if d == 3 {
        proof {
            reveal_strlit("3");
            assert("3"@ =~= seq![digit_char(3)]);
        }
        "3"
    } else if d == 4 {
        proof {
            reveal_strlit("4");
            assert("4"@ =~= seq![digit_char(4)]);
        }
        "4"
    } else if d == 5 {
        proof {
            reveal_strlit("5");
            assert("5"@ =~= seq![digit_char(5)]);
        }
        "5"
    } else if d == 6 {
        proof {
            reveal_strlit("6");
            assert("6"@ =~= seq![digit_char(6)]);
        }
        "6"
    } else if d == 7 {
        proof {
            reveal_strlit("7");
            assert("7"@ =~= seq![digit_char(7)]);
        }
        "7"
    } else if d == 8 {
        proof {
            reveal_strlit("8");
            assert("8"@ =~= seq![digit_char(8)]);
        }
        "8"
    } else {
        proof {
            reveal_strlit("9");
            assert("9"@ =~= seq![digit_char(9)]);
        }
        "9"
    }
}

/// Builds the name of the `n`-th completed frame.
pub fn make_frame_label(n: u64) -> (r: String)
    ensures
        r@ == spec_frame_label(n as nat),
{
    let mut digits: Vec<u64> = Vec::new();
    let mut m: u64 = n;
    loop
        invariant_except_break
            forall|k: int| 0 <= k < digits@.len() ==> digits@[k] < 10,
            dec_chars(n as nat) == dec_chars(m as nat) + rev_digit_chars(digits@),
        ensures
            forall|k: int| 0 <= k < digits@.len() ==> digits@[k] < 10,
            dec_chars(n as nat) == rev_digit_chars(digits@),
        decreases m,
    {
        let d = m % 10;
        let next = m / 10;
        proof {
            assert(rev_digit_chars(digits@.push(d)) =~= seq![digit_char(d as nat)]
                + rev_digit_chars(digits@));
            if next == 0 {
                assert(dec_chars(m as nat) + rev_digit_chars(digits@) =~= rev_digit_chars(
                    digits@.push(d),
                ));
            } else {
                assert(dec_chars(m as nat) =~= dec_chars(next as nat) + seq![
                    digit_char(d as nat),
                ]);
                assert(dec_chars(next as nat) + rev_digit_chars(digits@.push(d))
                    =~= dec_chars(m as nat) + rev_digit_chars(digits@));
            }
        }
        digits.push(d);
        if next == 0 {
            break ;
        }
        m = next;
    }
    let mut s = String::from_str("Frame #");
    let mut i: usize = digits.len();
    while i > 0
        invariant
            i <= digits@.len(),
            forall|k: int| 0 <= k < digits@.len() ==> digits@[k] < 10,
            dec_chars(n as nat) == rev_digit_chars(digits@),
            s@ == "Frame #"@ + rev_digit_chars(digits@).take(digits@.len() - i),
        decreases i,
    {
        i = i - 1;
        let dstr = digit_str(digits[i]);
        s.append(dstr);
        proof {
            assert(rev_digit_chars(digits@).take(digits@.len() - i) =~= rev_digit_chars(
                digits@,
            ).take(digits@.len() - (i + 1)) + seq![digit_char(digits@[i as int] as nat)]);
            assert(s@ =~= "Frame #"@ + rev_digit_chars(digits@).take(digits@.len() - i));
        }
    }
    proof {
        assert(rev_digit_chars(digits@).take(digits@.len() - 0) =~= rev_digit_chars(digits@));
        assert(s@ =~= spec_frame_label(n as nat));
    }
    s
}

} // verus!
