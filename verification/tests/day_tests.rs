use advent2022::day01::Top3;
use advent2022::day02::MatchResult;
use advent2022::day02::Move;
use advent2022::day03::bit_to_item;
use advent2022::day03::item_prio;
use advent2022::day03::make_set;
use advent2022::day04::Interval;
use advent2022::day05::Stacks;
use advent2022::day06::find_distinct_prefix_n;
use advent2022::day06::AsciiLowerBitSet;
use advent2022::day09::Knot;
use advent2022::day10::ltr;
use advent2022::day10::Computer;
use advent2022::day19::Blueprint;
use advent2022::day19::Resources;
use advent2022::day19::SimState;
use advent2022::day19::Simulation;
use advent2022::permutation::Permutation;
use advent2022::parse_num;
use advent2022::parse_nums;

#[test]
fn parse_num_reads_leading_digits() {
    assert_eq!(parse_num(b"123abc"), 123);
    assert_eq!(parse_num(b"abc"), 0);
    assert_eq!(parse_num(b""), 0);
    assert_eq!(parse_num(b"0042"), 42);
}

#[test]
fn parse_nums_scans_digit_runs() {
    let mut out = vec![0u64; 4];
    let n = parse_nums(b"2-4,6-8", &mut out);
    assert_eq!(n, 4);
    assert_eq!(out, vec![2, 4, 6, 8]);

    // The end of the input always emits: a trailing separator reads as 0.
    let mut out = vec![0u64; 4];
    let n = parse_nums(b"12,", &mut out);
    assert_eq!(n, 2);
    assert_eq!(out[..2], [12, 0]);

    // Extra numbers beyond the slots are left unread.
    let mut out = vec![0u64; 2];
    let n = parse_nums(b"1 2 3 4", &mut out);
    assert_eq!(n, 2);
    assert_eq!(out, vec![1, 2]);
}

#[test]
fn top3_keeps_the_three_largest() {
    let mut t = Top3::new();
    for v in [5u64, 1, 9, 3, 7, 2] {
        t.insert(v);
    }
    assert_eq!(t.0, [9, 7, 5]);
    assert_eq!(t.total(), 21);
}

#[test]
fn rock_paper_scissors_scores() {
    // A draw of rocks: 1 for the move, 3 for the draw.
    assert_eq!(Move::Rock.score_against(Move::Rock), 4);
    // Paper beats rock: 2 for the move, 6 for the win.
    assert_eq!(Move::Paper.score_against(Move::Rock), 8);
    // Rock loses to paper: 1 for the move, 0 for the loss.
    assert_eq!(Move::Rock.score_against(Move::Paper), 1);
    assert_eq!(Move::from_id(0), Move::Rock);
    assert_eq!(MatchResult::from_id(2), MatchResult::Win);
    assert_eq!(MatchResult::Win.response_for(Move::Rock), Move::Paper);
    assert_eq!(MatchResult::Lose.score_for_response(Move::Scissors), 2);
    assert!(Move::Scissors.eq(Move::Scissors));
    assert!(!Move::Scissors.eq(Move::Rock));
    assert_eq!(Move::Scissors.better(), Move::Rock);
    assert_eq!(Move::Scissors.worse(), Move::Paper);
    assert_eq!(Move::Rock.fight(Move::Scissors), MatchResult::Win);
}

#[test]
fn rucksack_priorities_and_bitsets() {
    assert_eq!(item_prio(b'a'), 1);
    assert_eq!(item_prio(b'z'), 26);
    assert_eq!(item_prio(b'A'), 27);
    assert_eq!(item_prio(b'Z'), 52);
    let set = make_set(b"abA");
    assert_eq!(bit_to_item(make_set(b"a")), b'a');
    assert_eq!(bit_to_item(make_set(b"Z")), b'Z');
    let other = make_set(b"cbB");
    assert_eq!(bit_to_item(set & other), b'b');
}

#[test]
fn interval_overlap_checks() {
    let a = Interval::new(2, 8);
    let b = Interval::new(3, 7);
    let c = Interval::new(7, 9);
    let d = Interval::new(9, 10);
    assert!(a.contains_or_contained(b));
    assert!(b.contains_or_contained(a));
    assert!(!b.contains_or_contained(c));
    assert!(a.overlaps(c));
    assert!(!b.overlaps(d));
}

#[test]
fn stacks_feed_prepare_and_move() {
    let mut stacks = Stacks::new();
    // The drawing, top line first:  [D]
    //                           [N] [C]
    //                           [Z] [M] [P]
    stacks.feed(b"    [D]");
    stacks.feed(b"[N] [C]");
    stacks.feed(b"[Z] [M] [P]");
    stacks.prepare();
    assert_eq!(stacks.0[0], vec![b'Z', b'N']);
    assert_eq!(stacks.0[1], vec![b'M', b'C', b'D']);
    assert_eq!(stacks.0[2], vec![b'P']);

    stacks.move_items_lifo(2, 1, 0);
    assert_eq!(stacks.0[0], vec![b'Z', b'N', b'D', b'C']);
    assert_eq!(stacks.0[1], vec![b'M']);

    stacks.move_items_fifo(3, 0, 2);
    assert_eq!(stacks.0[0], vec![b'Z']);
    assert_eq!(stacks.0[2], vec![b'P', b'N', b'D', b'C']);

    assert_eq!(stacks.tops(), vec![b'Z', b'M', b'C']);
}

#[test]
fn ascii_lower_bitset_operations() {
    let mut set = AsciiLowerBitSet::new();
    assert_eq!(set.len(), 0);
    set.add(b'a');
    set.add(b'q');
    assert!(set.contains(b'a'));
    assert!(set.contains(b'q'));
    assert!(!set.contains(b'b'));
    assert_eq!(set.len(), 2);
    set.remove(b'a');
    assert!(!set.contains(b'a'));
    assert_eq!(set.len(), 1);
}

#[test]
fn knots_follow_each_other() {
    let mut head = Knot(0, 0);
    let mut tail = Knot(0, 0);
    head.move_dir(b'R');
    assert_eq!(head, Knot(1, 0));
    assert!(!tail.move_towards(&head));
    head.move_dir(b'R');
    assert!(tail.move_towards(&head));
    assert_eq!(tail, Knot(1, 0));
    head.move_dir(b'U');
    head.move_dir(b'U');
    assert!(tail.move_towards(&head));
    assert_eq!(tail, Knot(2, -1));
    head.move_dir(b'L');
    head.move_dir(b'D');
    assert!(!tail.move_towards(&head));
}

#[test]
fn computer_runs_a_tiny_program() {
    let program: Vec<Vec<u8>> =
        ["noop", "addx 3", "addx -5"].iter().map(|l| l.as_bytes().to_vec()).collect();
    let mut c = Computer::new(program);
    assert_eq!(c.register, 1);
    assert!(c.step()); // noop decoded
    assert!(c.step()); // addx 3 decoded
    assert!(c.step());
    assert_eq!(c.register, 1);
    assert!(c.step()); // the 3 lands, addx -5 decoded
    assert_eq!(c.register, 4);
    assert!(c.step());
    assert_eq!(c.register, 4);
    assert!(!c.step()); // the -5 lands, program exhausted
    assert_eq!(c.register, -1);
}

#[test]
fn letter_rows_pack_into_one_word() {
    assert_eq!(ltr(0, 0, 0, 0, 0, 1), 1);
    assert_eq!(ltr(1, 0, 0, 0, 0, 0), 1 << 20);
    assert_eq!(
        ltr(0b1111, 0b1000, 0b1110, 0b1000, 0b1000, 0b1000),
        0b1111_1000_1110_1000_1000_1000
    );
}

#[test]
fn blueprint_simulation_small_cases() {
    // No time to build anything: the single ore robot cracks nothing.
    let free = Resources { ore: 0, clay: 0, obsidian: 0 };
    let blueprint = Blueprint {
        id: 1,
        ore_cost: Resources { ore: 4, clay: 0, obsidian: 0 },
        clay_cost: Resources { ore: 2, clay: 0, obsidian: 0 },
        obsidian_cost: Resources { ore: 3, clay: 14, obsidian: 0 },
        geodes_cost: Resources { ore: 2, clay: 0, obsidian: 7 },
        max_ore_required: 4,
    };
    assert_eq!(Simulation::simulate(blueprint, 1), 0);

    // A free geode robot at minute one cracks a geode every minute after.
    let gratis = Blueprint {
        id: 2,
        ore_cost: Resources { ore: 1, clay: 0, obsidian: 0 },
        clay_cost: Resources { ore: 1, clay: 0, obsidian: 0 },
        obsidian_cost: Resources { ore: 1, clay: 1, obsidian: 0 },
        geodes_cost: free,
        max_ore_required: 1,
    };
    assert_eq!(Simulation::simulate(gratis, 5), 4 + 3 + 2 + 1);

    let state = SimState::new(10);
    assert_eq!(state.can_afford_when(&free), Some(1));
    assert_eq!(
        state.can_afford_when(&Resources { ore: 3, clay: 0, obsidian: 0 }),
        Some(4)
    );
    assert_eq!(
        state.can_afford_when(&Resources { ore: 0, clay: 1, obsidian: 0 }),
        None
    );
    let later = state.steps(3);
    assert_eq!(later.cash.ore, 3);
    assert_eq!(later.time_remaining, 7);
    let bought = later.buy_ore_bot(&Resources { ore: 2, clay: 0, obsidian: 0 });
    assert_eq!(bought.cash.ore, 1);
    assert_eq!(bought.bots.ore, 2);
}

#[test]
fn distinct_prefix_window() {
    // The first four pairwise-distinct bytes end at index 6 ("jpqm").
    assert_eq!(find_distinct_prefix_n(b"mjqjpqmgbljsphdztnvjfqwrcgsmlb", 4), Some(6));
    assert_eq!(find_distinct_prefix_n(b"bvwbjplbgvbhsrlpgdmjqwftvncz", 4), Some(4));
    assert_eq!(find_distinct_prefix_n(b"mjqjpqmgbljsphdztnvjfqwrcgsmlb", 14), Some(18));
    assert_eq!(find_distinct_prefix_n(b"aabbaabb", 3), None);
    assert_eq!(find_distinct_prefix_n(b"ab", 1), Some(0));
}

#[test]
fn permutations_step_through_all_arrangements() {
    let mut p = Permutation::new(vec![0, 1, 2]);
    let mut seen = Vec::new();
    while p.next() {
        seen.push(p.perm().clone());
    }
    assert_eq!(seen.len(), 6);
    for arrangement in &seen {
        let mut sorted = arrangement.clone();
        sorted.sort();
        assert_eq!(sorted, vec![0, 1, 2]);
    }
    for i in 0..seen.len() {
        for j in 0..i {
            assert_ne!(seen[i], seen[j]);
        }
    }
}
