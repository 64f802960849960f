use advent2022::day20::Entry;
use advent2022::day20::Mixer;

#[test]
fn mixing_the_example_file() {
    let mut mixer = Mixer::from_values(&vec![1, 2, -3, 3, -2, 0, 4]);
    assert_eq!(mixer.len(), 7);
    mixer.mix(1);
    let entries = mixer.iter();
    let values: Vec<i16> = entries.iter().map(|e| e.value).collect();
    // The grove coordinates are the values 1000, 2000 and 3000 after the 0.
    let zero = values.iter().position(|&v| v == 0).unwrap();
    let grove: i16 = (1..=3).map(|k| values[(zero + 1000 * k) % 7]).sum();
    assert_eq!(grove, 3);
    // The mix permutes the original values.
    let mut sorted = values.clone();
    sorted.sort();
    assert_eq!(sorted, vec![-3, -2, 0, 1, 2, 3, 4]);
}

#[test]
fn one_move_wraps_around_the_circle() {
    // Moving the first entry of [1, x, y] by one puts it between x and y.
    let mut mixer = Mixer::from_values(&vec![1, 7, 8]);
    mixer.mix_item(0, 1);
    let values: Vec<i16> = mixer.iter().iter().map(|e| e.value).collect();
    assert_eq!(values, vec![7, 1, 8]);
    // A move of two returns to its own place in the circle of the other two.
    let mut mixer = Mixer::from_values(&vec![2, 7, 8]);
    mixer.mix_item(0, 1);
    let values: Vec<i16> = mixer.iter().iter().map(|e| e.value).collect();
    assert_eq!(values, vec![2, 7, 8]);
    // A zero-length move leaves the file unchanged.
    let mut mixer = Mixer::from_values(&vec![0, 5]);
    mixer.mix_item(0, 1);
    let values: Vec<i16> = mixer.iter().iter().map(|e| e.value).collect();
    assert_eq!(values, vec![0, 5]);
    // Entries keep their original positions as identities.
    assert_eq!(mixer.iter()[0], Entry { index: 0, value: 0 });
}
