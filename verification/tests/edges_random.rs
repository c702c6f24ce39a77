use paintcore::filter::hysteresis;
use paintcore::rnd::Rnd;

#[test]
fn weak_edges_joined_to_strong_ones_are_kept() {
    // 4 x 3 grid: a strong pixel at (0,0), a diagonal chain of weak pixels, and an isolated weak one.
    let mut grid = vec![
        2, 0, 0, 1, //
        0, 1, 0, 0, //
        0, 0, 1, 0, //
    ];
    hysteresis(&mut grid, 4, 3);
    assert_eq!(grid, vec![2, 0, 0, 0, 0, 2, 0, 0, 0, 0, 2, 0]);
}

#[test]
fn values_other_than_weak_and_strong_are_cleared() {
    let mut grid = vec![7, 2, 1, 3, 1, 9];
    hysteresis(&mut grid, 3, 2);
    assert_eq!(grid, vec![0, 2, 2, 0, 2, 0]);
}

#[test]
fn weak_pixels_without_strong_ones_vanish() {
    let mut grid = vec![1, 1, 1, 1];
    hysteresis(&mut grid, 2, 2);
    assert_eq!(grid, vec![0, 0, 0, 0]);
    let mut empty: Vec<u8> = Vec::new();
    hysteresis(&mut empty, 0, 0);
    assert!(empty.is_empty());
}

#[test]
fn random_numbers_stay_below_the_range() {
    let mut rnd = Rnd::new();
    for range in [1u32, 2, 7, 1000, u32::MAX] {
        for _ in 0..50 {
            assert!(rnd.get_u32(range) < range);
        }
    }
    assert_eq!(rnd.get_u32(1), 0);
}
