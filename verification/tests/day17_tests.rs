use advent2022::day17::shape_plus;
use advent2022::day17::FallOrSettle;
use advent2022::day17::Shape;

fn plus() -> Shape {
    let info = shape_plus();
    Shape {
        shape: info.data,
        shift: info.shift,
        height_until_floor: 0,
    }
}

#[test]
fn test_shift() {
    let chamber = vec![];
    let mut shape = plus();

    assert!(shape.try_shift(-2, &chamber).is_ok());
    assert!(shape.try_shift(-1, &chamber).is_err());

    shape = plus();

    assert!(shape.try_shift(2, &chamber).is_ok());
    assert!(shape.try_shift(1, &chamber).is_err());
}

#[test]
fn test_shift_with_chamber() {
    let chamber = vec![0b0000_0001, 0b0000_0000, 0b0000_0001];
    let mut shape = plus();
    assert!(shape.try_shift(-2, &chamber).is_ok());

    let chamber = vec![0b0000_0000, 0b0000_0001, 0b0000_0000];
    let mut shape = plus();
    assert!(shape.try_shift(-2, &chamber).is_err());

    let chamber = vec![0b0000_0011, 0b0000_0000, 0b0000_0011];
    let mut shape = plus();
    assert!(shape.try_shift(-1, &chamber).is_ok());
    assert_eq!(shape.shift, 1);
    assert!(shape.try_shift(-1, &chamber).is_err());
    assert_eq!(shape.shift, 1);

    let chamber = vec![0b0100_0001, 0b0100_0000, 0b0100_0001];
    let mut shape = plus();
    assert!(shape.try_shift(1, &chamber).is_ok());
    assert!(shape.try_shift(1, &chamber).is_err());

    let chamber = vec![0b0000_0011];
    let mut shape = plus();
    assert!(shape.try_shift(-1, &chamber).is_ok());
    assert!(shape.try_shift(-1, &chamber).is_err());

    let chamber = vec![0b0000_0011, 0b0000_0011];
    let mut shape = plus();
    assert!(shape.try_shift(-1, &chamber).is_err());
}

#[test]
fn test_fall() {
    let mut chamber = vec![];
    let mut shape = plus();
    shape.shift = 0;
    assert_eq!(shape.fall_or_settle(&mut chamber), FallOrSettle::Settle);
    assert_eq!(chamber, shape.shape);

    let mut chamber = vec![];
    let mut shape = plus();
    shape.height_until_floor = 1;
    assert_eq!(shape.fall_or_settle(&mut chamber), FallOrSettle::Fall);
    assert_eq!(chamber, vec![]);
    assert_eq!(shape.height_until_floor, 0);

    let mut chamber = vec![0b1111_1111];
    let mut shape = plus();
    shape.height_until_floor = 1;
    assert_eq!(shape.fall_or_settle(&mut chamber), FallOrSettle::Settle);
    assert_eq!(
        chamber,
        vec![0b1111_1111, 0b0000_1000, 0b0001_1100, 0b0000_1000]
    );
}

#[test]
fn settle_extends_the_chamber() {
    let info = shape_plus();
    let shape = Shape {
        shape: info.data,
        shift: 0,
        height_until_floor: 1,
    };
    let mut chamber = vec![0b0000_0001u8, 0b0000_0000];
    shape.settle(&mut chamber);
    assert_eq!(chamber, vec![0b0000_0001, 0b0000_0010, 0b0000_0111, 0b0000_0010]);
}
