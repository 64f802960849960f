//! Puzzle-solving library built around a flat-buffer 2-D tile grid and a
//! bounded best-first search over it, together with the byte-level parsing
//! utilities and per-day solvers that use them.
#![allow(unused_imports)]
use vstd::prelude::*;

pub mod asteroids;
pub mod day01;
pub mod day02;
pub mod day03;
pub mod day04;
pub mod day05;
pub mod day06;
pub mod day07;
pub mod day08;
pub mod day09;
pub mod day17;
pub mod day18;
pub mod day19;
pub mod day20;
pub mod day10;
pub mod day13;
pub mod day25;
pub mod fuel;
pub mod passwords;
pub mod permutation;
pub mod search;
pub mod tiles;

verus! {

/// True of an ASCII decimal digit byte.
pub open spec fn is_ascii_digit(c: u8) -> bool {
    48 <= c && c <= 57
}

/// One step of decimal accumulation, with the wraparound of `u64` arithmetic.
pub open spec fn digit_step(acc: u64, c: u8) -> u64 {
    (((acc as int) * 10 + (c as int - 48)) % 0x1_0000_0000_0000_0000) as u64
}

/// Value accumulated by reading the digits at the start of `s` into `acc`,
/// stopping at the first non-digit byte.
pub open spec fn parse_num_from(s: Seq<u8>, acc: u64) -> u64
    decreases s.len(),
{
    if s.len() == 0 || !is_ascii_digit(s[0]) {
        acc
    } else {
        parse_num_from(s.skip(1), digit_step(acc, s[0]))
    }
}

/// Reads the decimal number at the start of `slice`, stopping at the first
/// non-digit byte; an empty or digit-free prefix reads as 0, and overly long
/// digit runs wrap as `u64` arithmetic does.
#[verifier::loop_isolation(false)]
pub fn parse_num(slice: &[u8]) -> (num: u64)
    ensures
        num == parse_num_from(slice@, 0),
{
    let mut num: u64 = 0;
    let mut i: usize = 0;
    proof {
        assert(slice@.skip(0) =~= slice@);
    }
    while i < slice.len()
        invariant
            i <= slice.len(),
            parse_num_from(slice@, 0) == parse_num_from(slice@.skip(i as int), num),
        decreases slice.len() - i,
    {
        let c = slice[i];
        if c < 48 || c > 57 {
            return num;
        }
        proof {
            assert(slice@.skip(i as int)[0] == slice@[i as int]);
            assert(slice@.skip(i as int).skip(1) =~= slice@.skip(i as int + 1));
        }
        let wide: u128 = (num as u128) * 10 + ((c - 48) as u128);
        num = (wide % 0x1_0000_0000_0000_0000u128) as u64;
        i = i + 1;
    }
    num
}

/// The numbers read from `s` by scanning digit runs, with `acc` and `have`
/// the accumulator and whether it has seen a digit: each non-digit byte after
/// a digit run emits the run's value, and the end of the input always emits
/// the current accumulator (a trailing 0 when no run was in progress).
pub open spec fn nums_from(s: Seq<u8>, acc: u64, have: bool) -> Seq<u64>
    decreases s.len(),
{
    if s.len() == 0 {
        seq![acc]
    } else if is_ascii_digit(s[0]) {
        nums_from(s.skip(1), digit_step(acc, s[0]), true)
    } else if !have {
        nums_from(s.skip(1), acc, false)
    } else {
        seq![acc] + nums_from(s.skip(1), 0, false)
    }
}

/// The scan always emits at least one number.
pub proof fn lemma_nums_from_nonempty(s: Seq<u8>, acc: u64, have: bool)
    ensures
        nums_from(s, acc, have).len() >= 1,
    decreases s.len(),
{
    if s.len() != 0 {
        if is_ascii_digit(s[0]) {
            lemma_nums_from_nonempty(s.skip(1), digit_step(acc, s[0]), true);
        } else if !have {
            lemma_nums_from_nonempty(s.skip(1), acc, false);
        }
    }
}

/// Fills `result` with the numbers read from `slice`, in order, leaving any
/// remaining slots untouched, and returns how many were written: all of
/// `nums_from(slice@, 0, false)` that fit.
pub fn parse_nums(slice: &[u8], result: &mut Vec<u64>) -> (nums: usize)
    ensures
        ({
            let toks = nums_from(slice@, 0, false);
            &&& nums == if toks.len() <= old(result)@.len() {
                toks.len() as int
            } else {
                old(result)@.len() as int
            }
            &&& final(result)@ == toks.take(nums as int) + old(result)@.skip(nums as int)
        }),
{
    let ghost toks = nums_from(slice@, 0, false);
    let mut nums: usize = 0;
    let mut i: usize = 0;
    let mut num: u64 = 0;
    let mut have = false;
    proof {
        assert(slice@.skip(0) =~= slice@);
        assert(toks =~= toks.take(0) + toks);
        assert(result@ =~= toks.take(0) + old(result)@.skip(0));
    }
    while nums < result.len()
        invariant_except_break
            i <= slice.len(),
            nums <= result.len(),
            nums <= toks.len(),
            result@.len() == old(result)@.len(),
            toks == toks.take(nums as int) + nums_from(slice@.skip(i as int), num, have),
            result@ == toks.take(nums as int) + old(result)@.skip(nums as int),
        ensures
            result@.len() == old(result)@.len(),
            nums <= result@.len(),
            nums <= toks.len(),
            result@ == toks.take(nums as int) + old(result)@.skip(nums as int),
            toks.len() == nums || (nums == old(result)@.len() && toks == toks.take(nums as int)
                + nums_from(slice@.skip(i as int), num, have)),
        decreases slice.len() - i,
    {
        if i == slice.len() {
            proof {
                assert(slice@.skip(i as int) =~= Seq::<u8>::empty());
                assert(nums_from(slice@.skip(i as int), num, have) =~= seq![num]);
                assert(toks[nums as int] == num);
                assert(toks.take(nums as int + 1) =~= toks.take(nums as int).push(num));
            }
            let w = nums;
            result[w] = num;
            nums = nums + 1;
            proof {
                assert(result@ =~= toks.take(nums as int) + old(result)@.skip(nums as int));
                assert(toks.len() == nums);
            }
            break;
        }
        let c = slice[i];
        proof {
            assert(slice@.skip(i as int)[0] == slice@[i as int]);
            assert(slice@.skip(i as int).skip(1) =~= slice@.skip(i as int + 1));
        }
        if c >= 48 && c <= 57 {
            let wide: u128 = (num as u128) * 10 + ((c - 48) as u128);
            num = (wide % 0x1_0000_0000_0000_0000u128) as u64;
            have = true;
        } else if have {
            proof {
                assert(nums_from(slice@.skip(i as int), num, have) =~= seq![num]
                    + nums_from(slice@.skip(i as int + 1), 0, false));
                assert(toks[nums as int] == num);
                assert(toks.take(nums as int + 1) =~= toks.take(nums as int).push(num));
            }
            let w = nums;
            result[w] = num;
            nums = nums + 1;
            num = 0;
            have = false;
            proof {
                assert(result@ =~= toks.take(nums as int) + old(result)@.skip(nums as int));
                assert(toks =~= toks.take(nums as int)
                    + nums_from(slice@.skip(i as int + 1), num, have));
            }
        }
        i = i + 1;
    }
    proof {
        if toks.len() != nums {
            lemma_nums_from_nonempty(slice@.skip(i as int), num, have);
            assert(toks.len() > nums);
        }
    }
    nums
}

} // verus!
