//! Balanced base-5 ("snafu") numerals, with digits `=`, `-`, `0`, `1`, `2`
//! standing for -2 through 2.
use vstd::prelude::*;

verus! {

/// Powers of five.
pub open spec fn pow5(n: nat) -> int
    decreases n,
{
    if n == 0 {
        1
    } else {
        5 * pow5((n - 1) as nat)
    }
}

/// Whether `c` is a snafu digit.
pub open spec fn is_snafu_digit(c: u8) -> bool {
    c == 61 || c == 45 || 48 <= c <= 50
}

/// Value of one snafu digit: `=` is -2, `-` is -1, `0`-`2` are themselves.
pub open spec fn snafu_digit(c: u8) -> int {
    if c == 61 {
        -2
    } else if c == 45 {
        -1
    } else {
        c - 48
    }
}

/// Value of a snafu numeral, most significant digit first.
pub open spec fn snafu_val(s: Seq<u8>) -> int
    decreases s.len(),
{
    if s.len() == 0 {
        0
    } else {
        snafu_val(s.drop_last()) * 5 + snafu_digit(s.last())
    }
}

/// A numeral of `n` digits has magnitude at most `(pow5(n) - 1) / 2`: the
/// balanced digits reach exactly half the base-5 range either way.
pub proof fn lemma_snafu_val_bound(s: Seq<u8>)
    requires
        forall|k: int| 0 <= k < s.len() ==> is_snafu_digit(#[trigger] s[k]),
    ensures
        -(pow5(s.len()) - 1) <= 2 * snafu_val(s) <= pow5(s.len()) - 1,
    decreases s.len(),
{
    if s.len() > 0 {
        assert(forall|k: int|
            0 <= k < s.drop_last().len() ==> is_snafu_digit(#[trigger] s.drop_last()[k]));
        lemma_snafu_val_bound(s.drop_last());
        let v = snafu_val(s.drop_last());
        let p = pow5((s.len() - 1) as nat);
        lemma_pow5_pos((s.len() - 1) as nat);
        assert(-(5 * p - 1) <= 2 * (v * 5 + snafu_digit(s.last())) <= 5 * p - 1)
            by (nonlinear_arith)
            requires
                -(p - 1) <= 2 * v <= p - 1,
                -2 <= snafu_digit(s.last()) <= 2,
                p >= 1,
        ;
        assert(pow5(s.len()) == 5 * p);
    }
}

/// Powers of five are positive.
pub proof fn lemma_pow5_pos(n: nat)
    ensures
        pow5(n) >= 1,
    decreases n,
{
    if n > 0 {
        lemma_pow5_pos((n - 1) as nat);
    }
}

/// Reads a snafu numeral, most significant digit first. Any numeral of a
/// value that fits the result type is accepted, up to the 28 digits such a
/// value can need.
#[verifier::loop_isolation(false)]
pub fn parse_snafu(slice: &[u8]) -> (num: i64)
    requires
        forall|k: int| 0 <= k < slice@.len() ==> is_snafu_digit(#[trigger] slice@[k]),
        slice@.len() <= 28,
        -0x7fff_ffff_ffff_ffff <= snafu_val(slice@) <= 0x7fff_ffff_ffff_ffff,
    ensures
        num == snafu_val(slice@),
{
    let mut num: i128 = 0;
    let mut i: usize = 0;
    proof {
        assert(slice@.take(0) =~= Seq::<u8>::empty());
    }
    while i < slice.len()
        invariant
            i <= slice@.len(),
            num == snafu_val(slice@.take(i as int)),
        decreases slice@.len() - i,
    {
        proof {
            assert(forall|k: int|
                0 <= k < slice@.take(i as int).len() ==> is_snafu_digit(
                    #[trigger] slice@.take(i as int)[k],
                ));
            lemma_snafu_val_bound(slice@.take(i as int));
            lemma_pow5_mono(i as nat, 28);
            lemma_pow5_values();
            assert(slice@.take(i + 1).drop_last() =~= slice@.take(i as int));
            assert(slice@.take(i + 1).last() == slice@[i as int]);
        }
        let c = slice[i];
        let n: i128 = if c == 61 {
            -2
        } else if c == 45 {
            -1
        } else {
            (c - 48) as i128
        };
        num = num * 5 + n;
        i = i + 1;
    }
    proof {
        assert(slice@.take(slice@.len() as int) =~= slice@);
    }
    num as i64
}

/// Powers of five grow with the exponent.
pub proof fn lemma_pow5_mono(a: nat, b: nat)
    requires
        a <= b,
    ensures
        pow5(a) <= pow5(b),
    decreases b,
{
    if a < b {
        lemma_pow5_mono(a, (b - 1) as nat);
        lemma_pow5_pos((b - 1) as nat);
    }
}

/// The powers of five around the `i64` range.
pub proof fn lemma_pow5_values()
    ensures
        pow5(27) == 7450580596923828125,
        pow5(28) == 37252902984619140625,
{
    reveal_with_fuel(pow5, 30);
}

/// Writes `num` as a snafu numeral: the digits read back to `num`, every
/// digit is a snafu digit, zero is the empty numeral, the leading digit is
/// positive, and at most 28 digits are ever needed — so the numeral can be
/// handed back to `parse_snafu` whole.
pub fn to_snafu(num: i64) -> (r: Vec<u8>)
    requires
        num >= 0,
    ensures
        snafu_val(r@) == num,
        forall|k: int| 0 <= k < r@.len() ==> is_snafu_digit(#[trigger] r@[k]),
        r@.len() == 0 <==> num == 0,
        r@.len() > 0 ==> r@[0] != 48 && snafu_digit(r@[0]) >= 1,
        r@.len() <= 28,
{
    let ghost orig = num as int;
    let mut num = num;
    let mut r: Vec<u8> = Vec::new();
    while num != 0
        invariant
            num >= 0,
            snafu_val(r@) + num * pow5(r@.len() as nat) == orig,
            forall|k: int| 0 <= k < r@.len() ==> is_snafu_digit(#[trigger] r@[k]),
            num == 0 && r@.len() > 0 ==> snafu_digit(r@[0]) >= 1,
            orig == 0 ==> r@.len() == 0,
        decreases num,
    {
        proof {
            if orig == 0 {
                assert(snafu_val(r@) == 0);
                assert(pow5(r@.len() as nat) == 1);
                assert(num * pow5(r@.len() as nat) == num) by (nonlinear_arith)
                    requires
                        pow5(r@.len() as nat) == 1,
                ;
                assert(false);
            }
        }
        let ghost pre = r@;
        let ghost num0 = num as int;
        let n = num % 5;
        num = num / 5;
        let digit: u8 = if n <= 2 {
            48 + n as u8
        } else {
            num = num + 1;
            if n == 3 {
                61
            } else {
                45
            }
        };
        r.insert(0, digit);
        proof {
            assert(r@ =~= seq![digit] + pre);
            lemma_snafu_prepend(digit, pre);
            assert(num0 == 5 * (num as int) + snafu_digit(digit));
            assert(pow5(pre.len() + 1) == 5 * pow5(pre.len()));
            assert(snafu_val(r@) + num * pow5(r@.len() as nat) == snafu_val(pre) + num0 * pow5(
                pre.len(),
            )) by (nonlinear_arith)
                requires
                    snafu_val(r@) == snafu_digit(digit) * pow5(pre.len()) + snafu_val(pre),
                    pow5(r@.len() as nat) == 5 * pow5(pre.len()),
                    num0 == 5 * (num as int) + snafu_digit(digit),
            ;
        }
    }
    proof {
        if r@.len() >= 29 {
            assert(r@ =~= seq![r@[0]] + r@.skip(1));
            assert forall|k: int|
                0 <= k < r@.skip(1).len() implies is_snafu_digit(#[trigger] r@.skip(1)[k]) by {
                assert(r@.skip(1)[k] == r@[k + 1]);
            }
            lemma_snafu_prepend(r@[0], r@.skip(1));
            lemma_snafu_val_bound(r@.skip(1));
            lemma_pow5_mono(28, (r@.len() - 1) as nat);
            lemma_pow5_values();
            let p = pow5((r@.len() - 1) as nat);
            assert(snafu_digit(r@[0]) >= 1);
            assert(snafu_digit(r@[0]) * p >= p) by (nonlinear_arith)
                requires
                    snafu_digit(r@[0]) >= 1,
                    p >= 1,
            ;
            assert(false);
        }
    }
    r
}

/// Prepending a digit adds its value at the numeral's magnitude.
pub proof fn lemma_snafu_prepend(d: u8, s: Seq<u8>)
    ensures
        snafu_val(seq![d] + s) == snafu_digit(d) * pow5(s.len()) + snafu_val(s),
    decreases s.len(),
{
    let t = seq![d] + s;
    if s.len() == 0 {
        assert(t =~= seq![d]);
        assert(t.drop_last() =~= Seq::<u8>::empty());
        assert(t.last() == d);
        assert(snafu_val(t) == snafu_val(t.drop_last()) * 5 + snafu_digit(t.last()));
        assert(snafu_val(Seq::<u8>::empty()) == 0);
        assert(pow5(0) == 1);
    } else {
        assert(t.drop_last() =~= seq![d] + s.drop_last());
        lemma_snafu_prepend(d, s.drop_last());
        assert(t.last() == s.last());
        assert((snafu_digit(d) * pow5((s.len() - 1) as nat) + snafu_val(s.drop_last())) * 5
            == snafu_digit(d) * (5 * pow5((s.len() - 1) as nat)) + 5 * snafu_val(s.drop_last()))
            by (nonlinear_arith);
        assert(pow5(s.len()) == 5 * pow5((s.len() - 1) as nat));
    }
}

} // verus!
