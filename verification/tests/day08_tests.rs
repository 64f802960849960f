use advent2022::day08::line_visibility;
use advent2022::tiles::Tiles;

#[test]
fn visibility_along_a_line() {
    let trees = Tiles::load(b"30373\n25512\n65332\n33549\n35390\n".to_vec());
    let mut visibility = Tiles::new(5, 5, 0u8);
    let rows = trees.rows_steppers();
    // Second row, scanned from the left: 2, 5 are visible, the rest hidden.
    let idxs = rows[1].iter();
    let tallest_at = line_visibility(&trees, &mut visibility, &idxs, trees.entries.len());
    assert_eq!(tallest_at, idxs[1]);
    let marked: Vec<u8> = idxs.iter().map(|&k| visibility.entries[k]).collect();
    assert_eq!(marked, vec![1, 1, 0, 0, 0]);
    // The same line scanned from the right stops at the tallest tree: the
    // last 2 and the second 5 are also visible from the right.
    let mut rev = idxs.clone();
    rev.reverse();
    line_visibility(&trees, &mut visibility, &rev, tallest_at);
    let marked: Vec<u8> = idxs.iter().map(|&k| visibility.entries[k]).collect();
    assert_eq!(marked, vec![1, 1, 1, 0, 1]);
}
