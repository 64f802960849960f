use advent2022::tiles::Point;
use advent2022::tiles::Stepper;
use advent2022::tiles::Tiles;

#[test]
fn grid_round_trip() {
    let text = b"abc\ndef\n".to_vec();
    let grid = Tiles::load(text);
    assert_eq!(grid.width(), 3);
    assert_eq!(grid.height(), 2);
    for y in 0..2i16 {
        for x in 0..3i16 {
            let expected = b"abc\ndef\n"[(y as usize) * 4 + x as usize];
            assert_eq!(grid.get(Point::new(x, y)), Some(&expected));
        }
    }
    assert_eq!(grid.get(Point::new(3, 0)), None);
    assert_eq!(grid.get(Point::new(0, 2)), None);
    assert_eq!(grid.get(Point::new(-1, 0)), None);
}

#[test]
fn stride_invariant_after_operations() {
    let grid = Tiles::load(b"ab\ncd\nef\n".to_vec());
    assert_eq!(grid.entries.len(), grid.line_width * grid.height());
    assert!(grid.width() <= grid.line_width);

    let mut synth = Tiles::new(4, 3, 7u8);
    assert_eq!(synth.entries.len(), synth.line_width * synth.height());
    assert!(synth.width() <= synth.line_width);

    let small = Tiles::new(2, 2, 9u8);
    synth.copy(1, 1, &small);
    assert_eq!(synth.entries.len(), synth.line_width * synth.height());

    let region = synth.region(1, 1, 3, 3);
    assert_eq!(region.entries.len(), region.line_width * region.height());
    assert!(region.width() <= region.line_width);
}

#[test]
fn region_extraction_matches_source() {
    let grid = Tiles::load(b"0123\n4567\n89ab\n".to_vec());
    let copy_for_read = Tiles::load(b"0123\n4567\n89ab\n".to_vec());
    let region = grid.region(1, 1, 4, 3);
    assert_eq!(region.width(), 3);
    assert_eq!(region.height(), 2);
    for j in 0..2i16 {
        for i in 0..3i16 {
            assert_eq!(
                region.get(Point::new(i, j)),
                copy_for_read.get(Point::new(i + 1, j + 1))
            );
        }
    }
}

#[test]
fn coordinate_bijection() {
    let grid = Tiles::load(b"abc\ndef\nghi\n".to_vec());
    for k in 0..grid.entries.len() {
        let p = grid.coords_for(k);
        assert_eq!(grid.index_for(p), k);
    }
}

#[test]
fn copy_blits_rows() {
    let mut dst = Tiles::new(4, 4, b'.');
    let src = Tiles::new(2, 2, b'#');
    dst.copy(1, 2, &src);
    for y in 0..4i16 {
        for x in 0..4i16 {
            let expected = if (1..3).contains(&x) && (2..4).contains(&y) { b'#' } else { b'.' };
            assert_eq!(dst.get(Point::new(x, y)), Some(&expected));
        }
    }
}

#[test]
fn steppers_walk_rows_and_columns() {
    let grid = Tiles::load(b"ab\ncd\n".to_vec());
    let rows = grid.rows_steppers();
    assert_eq!(rows.len(), 2);
    assert_eq!(rows[0].iter(), vec![0, 1]);
    assert_eq!(rows[1].iter(), vec![3, 4]);
    assert_eq!(rows[0].len(), 2);

    let cols = grid.col_steppers();
    assert_eq!(cols.len(), 2);
    assert_eq!(cols[0].iter(), vec![0, 3]);
    assert_eq!(cols[1].iter(), vec![1, 4]);

    assert_eq!(grid.iter_with(&rows[1]), vec![b'c', b'd']);
    assert_eq!(grid.iter_with(&cols[0]), vec![b'a', b'c']);

    // Restartable: materializing twice replays the same offsets.
    assert_eq!(rows[0].iter(), rows[0].iter());
}

#[test]
fn vertical_stepper_from_parts() {
    let s = Stepper::new_vert(1, 3, 9);
    assert_eq!(s.len(), 3);
    assert_eq!(s.iter(), vec![1, 4, 7]);
}

#[test]
fn reset_overwrites_every_cell() {
    let mut grid = Tiles::new(2, 2, 1u8);
    grid.reset(5);
    assert!(grid.entries.iter().all(|&c| c == 5));
}

#[test]
fn from_vec_keeps_geometry() {
    let grid = Tiles::from_vec(vec![1u8, 2, 3, 4, 5, 6], 3, 0);
    assert_eq!(grid.width(), 3);
    assert_eq!(grid.height(), 2);
    assert_eq!(grid.get(Point::new(2, 1)), Some(&6));
}

#[test]
fn find_cell_finds_first_in_row_major_order() {
    let grid = Tiles::load(b"ab\nba\n".to_vec());
    assert_eq!(grid.find_cell(b'b'), Some(Point::new(1, 0)));
    assert_eq!(grid.find_cell(b'z'), None);
}

#[test]
fn point_arithmetic() {
    let p = Point::new(3, -2);
    let q = Point::new(-1, 5);
    assert_eq!(p.add(q), Point::new(2, 3));
    assert_eq!(p.sub(q), Point::new(4, -7));
    assert_eq!(p.mul(2), Point::new(6, -4));
    assert_eq!(p.manhattan_distance(q), 4 + 7);
    assert_eq!(p.quad_distance(q), 16 + 49);
    assert_eq!(p.min_bound(q), Point::new(-1, -2));
    assert_eq!(p.max_bound(q), Point::new(3, 5));
    let n = Point::new(0, 0).neighbors();
    assert_eq!(
        n,
        vec![
            Point::new(0, 1),
            Point::new(1, 0),
            Point::new(0, -1),
            Point::new(-1, 0)
        ]
    );
}
