//! Sizing directories from a terminal transcript: a stack of partial sums,
//! one directory size emitted at each `cd ..` and at the end of the walk.
use vstd::prelude::*;

verus! {

use crate::parse_num_from;

/// A `u64` sum with the wraparound of machine arithmetic.
pub open spec fn wrap_add(a: u64, b: u64) -> u64 {
    ((a + b) % 0x1_0000_0000_0000_0000) as u64
}

/// What one transcript line does to the scan state `(stack, top, sizes)`:
/// `cd ..` pops, emitting the finished directory's size into its parent;
/// `cd name` pushes a fresh sum; `ls` and `dir` lines do nothing; a file
/// line adds its leading size to the current sum.
pub open spec fn dirscan_line(
    line: Seq<u8>,
    stack: Seq<u64>,
    top: u64,
    sizes: Seq<u64>,
) -> (Seq<u64>, u64, Seq<u64>) {
    if line.len() == 0 {
        (stack, top, sizes)
    } else if line[0] == 36 {
        if line.len() >= 6 {
            if line[5] == 46 {
                if stack.len() > 0 {
                    (stack.drop_last(), wrap_add(top, stack.last()), sizes.push(top))
                } else {
                    (stack, top, sizes)
                }
            } else {
                (stack.push(top), 0u64, sizes)
            }
        } else {
            (stack, top, sizes)
        }
    } else if line[0] == 100 {
        (stack, top, sizes)
    } else {
        (stack, wrap_add(top, parse_num_from(line, 0)), sizes)
    }
}

/// The scan state after the whole transcript.
pub open spec fn dirscan_lines(
    lines: Seq<Seq<u8>>,
    stack: Seq<u64>,
    top: u64,
    sizes: Seq<u64>,
) -> (Seq<u64>, u64, Seq<u64>)
    decreases lines.len(),
{
    if lines.len() == 0 {
        (stack, top, sizes)
    } else {
        let next = dirscan_line(lines[0], stack, top, sizes);
        dirscan_lines(lines.skip(1), next.0, next.1, next.2)
    }
}

/// Drains the stack at the end of the walk: every still-open directory emits
/// its size into its parent, root last.
pub open spec fn dirscan_drain(stack: Seq<u64>, top: u64, sizes: Seq<u64>) -> Seq<u64>
    decreases stack.len(),
{
    if stack.len() == 0 {
        sizes
    } else {
        dirscan_drain(stack.drop_last(), wrap_add(top, stack.last()), sizes.push(top))
    }
}

/// Sizes of all directories of a terminal transcript, innermost first, the
/// walk's root directory last.
#[verifier::loop_isolation(false)]
pub fn dirscan(lines: &Vec<Vec<u8>>) -> (sizes: Vec<u64>)
    requires
        forall|k: int| 0 <= k < lines@.len() ==> (#[trigger] lines@[k])@.len() >= 1,
    ensures
        ({
            let scanned = dirscan_lines(lines@.map_values(|l: Vec<u8>| l@), Seq::empty(), 0, Seq::empty());
            sizes@ == dirscan_drain(scanned.0, scanned.1, scanned.2)
        }),
{
    let ghost all = lines@.map_values(|l: Vec<u8>| l@);
    let mut dirsizes: Vec<u64> = Vec::new();
    let mut stack: Vec<u64> = Vec::new();
    let mut top: u64 = 0;
    let mut i: usize = 0;
    proof {
        assert(all.skip(0) =~= all);
    }
    while i < lines.len()
        invariant
            i <= lines@.len(),
            dirscan_lines(all, Seq::empty(), 0, Seq::empty()) == dirscan_lines(
                all.skip(i as int),
                stack@,
                top,
                dirsizes@,
            ),
        decreases lines@.len() - i,
    {
        proof {
            assert(all.skip(i as int)[0] == all[i as int]);
            assert(all.skip(i as int).skip(1) =~= all.skip(i as int + 1));
        }
        let line = &lines[i];
        let c = line[0];
        if c == 36 {
            if line.len() >= 6 {
                if line[5] == 46 {
                    if stack.len() > 0 {
                        dirsizes.push(top);
                        let parent = stack.pop().unwrap();
                        let wide: u128 = (top as u128) + (parent as u128);
                        top = (wide % 0x1_0000_0000_0000_0000u128) as u64;
                    }
                } else {
                    stack.push(top);
                    top = 0;
                }
            }
        } else if c == 100 {
        } else {
            let num = crate::parse_num(line.as_slice());
            let wide: u128 = (top as u128) + (num as u128);
            top = (wide % 0x1_0000_0000_0000_0000u128) as u64;
        }
        i = i + 1;
    }
    proof {
        assert(all.skip(all.len() as int) =~= Seq::<Seq<u8>>::empty());
    }
    while stack.len() > 0
        invariant
            dirscan_drain(
                dirscan_lines(all, Seq::empty(), 0, Seq::empty()).0,
                dirscan_lines(all, Seq::empty(), 0, Seq::empty()).1,
                dirscan_lines(all, Seq::empty(), 0, Seq::empty()).2,
            ) == dirscan_drain(stack@, top, dirsizes@),
        decreases stack@.len(),
    {
        dirsizes.push(top);
        let parent = stack.pop().unwrap();
        let wide: u128 = (top as u128) + (parent as u128);
        top = (wide % 0x1_0000_0000_0000_0000u128) as u64;
    }
    dirsizes
}

/// Sum of the sizes of all directories of at most 100 000 units.
pub open spec fn small_total(sizes: Seq<u64>) -> u64
    decreases sizes.len(),
{
    if sizes.len() == 0 {
        0u64
    } else {
        wrap_add(
            small_total(sizes.drop_last()),
            if sizes.last() <= 100000 {
                sizes.last()
            } else {
                0u64
            },
        )
    }
}

/// Sum of the sizes of all directories of at most 100 000 units.
#[verifier::loop_isolation(false)]
pub fn part1_dirscan(sizes: &Vec<u64>) -> (total: u64)
    ensures
        total == small_total(sizes@),
{
    let mut total: u64 = 0;
    let mut i: usize = 0;
    proof {
        assert(sizes@.take(0) =~= Seq::<u64>::empty());
    }
    while i < sizes.len()
        invariant
            i <= sizes@.len(),
            total == small_total(sizes@.take(i as int)),
        decreases sizes@.len() - i,
    {
        proof {
            assert(sizes@.take(i + 1).drop_last() =~= sizes@.take(i as int));
            assert(sizes@.take(i + 1).last() == sizes@[i as int]);
        }
        let size = sizes[i];
        if size <= 100000 {
            let wide: u128 = (total as u128) + (size as u128);
            total = (wide % 0x1_0000_0000_0000_0000u128) as u64;
        }
        i = i + 1;
    }
    proof {
        assert(sizes@.take(sizes@.len() as int) =~= sizes@);
    }
    total
}

/// Smallest of the sizes at least `floor`, if any.
pub open spec fn best_deletion(sizes: Seq<u64>, floor: u64) -> u64
    decreases sizes.len(),
{
    if sizes.len() == 0 {
        u64::MAX
    } else if sizes.last() >= floor && sizes.last() < best_deletion(sizes.drop_last(), floor) {
        sizes.last()
    } else {
        best_deletion(sizes.drop_last(), floor)
    }
}

/// Size of the smallest single directory whose deletion frees enough disk:
/// the last size is the whole walk's, the disk holds 70 000 000 units, and
/// 30 000 000 must end up free.
#[verifier::loop_isolation(false)]
pub fn part2_identify_dir_to_delete(sizes: &Vec<u64>) -> (best: u64)
    requires
        sizes@.len() >= 1,
        40000000 <= sizes@.last() <= 70000000,
    ensures
        best == best_deletion(sizes@, (sizes@.last() - 40000000) as u64),
{
    let total = sizes[sizes.len() - 1];
    let space_left = 70000000 - total;
    let space_required = 30000000 - space_left;
    let mut best: u64 = u64::MAX;
    let mut i: usize = 0;
    proof {
        assert(sizes@.take(0) =~= Seq::<u64>::empty());
    }
    while i < sizes.len()
        invariant
            i <= sizes@.len(),
            best == best_deletion(sizes@.take(i as int), space_required),
            space_required == sizes@.last() - 40000000,
        decreases sizes@.len() - i,
    {
        proof {
            assert(sizes@.take(i + 1).drop_last() =~= sizes@.take(i as int));
            assert(sizes@.take(i + 1).last() == sizes@[i as int]);
        }
        let size = sizes[i];
        if size >= space_required && size < best {
            best = size;
        }
        i = i + 1;
    }
    proof {
        assert(sizes@.take(sizes@.len() as int) =~= sizes@);
    }
    best
}

} // verus!
