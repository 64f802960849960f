use advent2022::day18::Voxel;

#[test]
fn voxel_geometry() {
    let v = Voxel::load(b"2,2,5");
    assert_eq!(v, Voxel::new(2, 2, 5));
    let adjacent = v.adjacent();
    assert_eq!(adjacent.len(), 6);
    assert!(adjacent.contains(&Voxel::new(1, 2, 5)));
    assert!(adjacent.contains(&Voxel::new(2, 2, 6)));
    let lo = v.min(&Voxel::new(3, 1, 5));
    let hi = v.max(&Voxel::new(3, 1, 5));
    assert_eq!(lo, Voxel::new(2, 1, 5));
    assert_eq!(hi, Voxel::new(3, 2, 5));
    assert!(v.in_bounds(&lo, &hi));
    assert!(!Voxel::new(0, 0, 0).in_bounds(&lo, &hi));
}
