use advent2022::asteroids::gcd;
use advent2022::asteroids::one_down;
use advent2022::fuel::fuel_requirements;
use advent2022::passwords::is_valid_pw;

#[test]
fn fuel_for_module_masses() {
    // 12 needs 2; 14 needs 2; 1969 needs 654 + 216 + 70 + 21 + 5 = 966.
    assert_eq!(fuel_requirements(12), 2);
    assert_eq!(fuel_requirements(14), 2);
    assert_eq!(fuel_requirements(1969), 966);
    assert_eq!(fuel_requirements(100756), 50346);
    // Tiny masses need nothing at all.
    assert_eq!(fuel_requirements(5), 0);
}

#[test]
fn sight_vectors_step_down() {
    assert_eq!(gcd((12, 8)), 4);
    assert_eq!(gcd((-12, 8)), 4);
    assert_eq!(gcd((0, 5)), 5);
    assert_eq!(gcd((7, 0)), 7);
    // (6, 4) steps back to (3, 2), which is a single lattice step.
    assert_eq!(one_down((6, 4)), Some((3, 2)));
    assert_eq!(one_down((3, 2)), None);
    assert_eq!(one_down((-6, 4)), Some((-3, 2)));
    assert_eq!(one_down((0, 3)), Some((0, 2)));
}

#[test]
fn password_validity() {
    assert!(is_valid_pw(112233));
    // The double 4 sits inside a longer run: not standalone.
    assert!(!is_valid_pw(123444));
    // The double 2 stands alone even next to a triple.
    assert!(is_valid_pw(111122));
    // Decreasing digits are out, whatever the doubles.
    assert!(!is_valid_pw(223450));
    // No double at all.
    assert!(!is_valid_pw(123789));
    // Not six digits.
    assert!(!is_valid_pw(99999));
    assert!(!is_valid_pw(1000000));
}
