use advent2022::day07::dirscan;
use advent2022::day07::part1_dirscan;
use advent2022::day07::part2_identify_dir_to_delete;

fn example_transcript() -> Vec<Vec<u8>> {
    let text: &[&str] = &[
        "$ cd /", "$ ls", "dir a", "14848514 b.txt", "8504156 c.dat", "dir d", "$ cd a", "$ ls",
        "dir e", "29116 f", "2557 g", "62596 h.lst", "$ cd e", "$ ls", "584 i", "$ cd ..",
        "$ cd ..", "$ cd d", "$ ls", "4060174 j", "8033020 d.log", "5626152 d.ext", "7214296 k",
    ];
    text.iter().map(|l| l.as_bytes().to_vec()).collect()
}

#[test]
fn directory_sizes_from_transcript() {
    let sizes = dirscan(&example_transcript());
    // Innermost first: e, a, then d and the root when the stack drains.
    assert_eq!(sizes, vec![584, 94853, 24933642, 48381165]);
}

#[test]
fn small_directories_total() {
    let sizes = dirscan(&example_transcript());
    assert_eq!(part1_dirscan(&sizes), 95437);
}

#[test]
fn directory_to_delete() {
    let sizes = dirscan(&example_transcript());
    assert_eq!(part2_identify_dir_to_delete(&sizes), 24933642);
}
