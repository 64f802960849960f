use advent2022::day25::parse_snafu;
use advent2022::day25::to_snafu;

#[test]
fn test_snafu() {
    let vectors = vec![
        ("1=-0-2", 1747),
        ("12111", 906),
        ("2=0=", 198),
        ("21", 11),
        ("2=01", 201),
        ("111", 31),
        ("20012", 1257),
        ("112", 32),
        ("1=-1=", 353),
        ("1-12", 107),
        ("12", 7),
        ("1=", 3),
        ("122", 37),
    ];

    for (s, n) in vectors {
        assert_eq!(parse_snafu(s.as_bytes()), n);
        assert_eq!(to_snafu(n), s.as_bytes().to_vec());
    }
}

#[test]
fn snafu_zero_is_empty() {
    assert_eq!(to_snafu(0), Vec::<u8>::new());
    assert_eq!(parse_snafu(b""), 0);
}

#[test]
fn snafu_round_trip_small_values() {
    for n in 1..200i64 {
        assert_eq!(parse_snafu(&to_snafu(n)), n);
    }
}

#[test]
fn snafu_round_trip_extremes() {
    // The largest value needs all 28 digits and still reads back.
    let digits = to_snafu(i64::MAX);
    assert_eq!(digits.len(), 28);
    assert_eq!(parse_snafu(&digits), i64::MAX);
    assert_eq!(parse_snafu(&to_snafu(1_000_000_000_000)), 1_000_000_000_000);
}
