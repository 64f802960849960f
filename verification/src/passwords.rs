//! Password candidates: six digits, never decreasing, with a standalone
//! double digit somewhere.
use vstd::prelude::*;

verus! {

/// The six decimal digits of a six-digit number, most significant first.
pub open spec fn pw_digits(pw: int) -> Seq<int> {
    seq![
        pw / 100000 % 10,
        pw / 10000 % 10,
        pw / 1000 % 10,
        pw / 100 % 10,
        pw / 10 % 10,
        pw % 10,
    ]
}

/// Whether digits `i` and `i + 1` are a run of exactly two.
pub open spec fn run_of_two_at(d: Seq<int>, i: int) -> bool {
    &&& d[i] == d[i + 1]
    &&& (i == 0 || d[i - 1] != d[i])
    &&& (i == 4 || d[i + 1] != d[i + 2])
}

/// A valid password: six digits, non-decreasing, and some digit appearing
/// exactly twice in a row.
pub open spec fn spec_is_valid_pw(pw: int) -> bool {
    let d = pw_digits(pw);
    &&& 100000 <= pw <= 999999
    &&& forall|i: int| 0 <= i < 5 ==> #[trigger] d[i] <= d[i + 1]
    &&& exists|i: int| 0 <= i < 5 && #[trigger] run_of_two_at(d, i)
}

/// Whether `pw` is a valid password.
pub fn is_valid_pw(pw: u32) -> (r: bool)
    ensures
        r == spec_is_valid_pw(pw as int),
{
    if pw < 100000 || pw > 999999 {
        return false;
    }
    let d0 = pw / 100000 % 10;
    let d1 = pw / 10000 % 10;
    let d2 = pw / 1000 % 10;
    let d3 = pw / 100 % 10;
    let d4 = pw / 10 % 10;
    let d5 = pw % 10;
    let ghost d = pw_digits(pw as int);
    proof {
        assert(d[0] == d0 && d[1] == d1 && d[2] == d2 && d[3] == d3 && d[4] == d4 && d[5] == d5);
    }
    let sorted = d0 <= d1 && d1 <= d2 && d2 <= d3 && d3 <= d4 && d4 <= d5;
    let double = (d0 == d1 && d1 != d2) || (d1 == d2 && d0 != d1 && d2 != d3) || (d2 == d3 && d1
        != d2 && d3 != d4) || (d3 == d4 && d2 != d3 && d4 != d5) || (d4 == d5 && d3 != d4);
    proof {
        if sorted {
            assert forall|i: int| 0 <= i < 5 implies #[trigger] d[i] <= d[i + 1] by {
                if i == 0 {
                } else if i == 1 {
                } else if i == 2 {
                } else if i == 3 {
                }
            }
        } else {
            assert(!(forall|i: int| 0 <= i < 5 ==> #[trigger] d[i] <= d[i + 1])) by {
                if d0 > d1 {
                    assert(!(d[0] <= d[1]));
                } else if d1 > d2 {
                    assert(!(d[1] <= d[2]));
                } else if d2 > d3 {
                    assert(!(d[2] <= d[3]));
                } else if d3 > d4 {
                    assert(!(d[3] <= d[4]));
                } else {
                    assert(!(d[4] <= d[5]));
                }
            }
        }
        if double {
            if d0 == d1 && d1 != d2 {
                assert(run_of_two_at(d, 0));
            } else if d1 == d2 && d0 != d1 && d2 != d3 {
                assert(run_of_two_at(d, 1));
            } else if d2 == d3 && d1 != d2 && d3 != d4 {
                assert(run_of_two_at(d, 2));
            } else if d3 == d4 && d2 != d3 && d4 != d5 {
                assert(run_of_two_at(d, 3));
            } else {
                assert(run_of_two_at(d, 4));
            }
        } else {
            assert forall|i: int| 0 <= i < 5 implies !#[trigger] run_of_two_at(d, i) by {
                if i == 0 {
                } else if i == 1 {
                } else if i == 2 {
                } else if i == 3 {
                }
            }
        }
    }
    sorted && double
}

} // verus!
