use haversine_json::generator::{
    generate_random_quadrants, pair_separator, starts_batch, Quadrant, BATCH, MAX_DIFF,
};
use rand::rngs::StdRng;
use rand::SeedableRng;

fn check(q: &Quadrant) {
    assert!(-180 <= q.x_low && q.x_low < 160, "{:?}", q);
    assert!(q.x_low < q.x_high && q.x_high <= q.x_low + MAX_DIFF, "{:?}", q);
    assert!(-90 <= q.y_low && q.y_low < 70, "{:?}", q);
    assert!(q.y_low < q.y_high && q.y_high <= q.y_low + MAX_DIFF, "{:?}", q);
    assert!(q.x_high < 180 && q.y_high < 90, "{:?}", q);
}

#[test]
fn quadrants_are_valid_for_many_seeds() {
    for seed in 0..200u64 {
        let mut rng = StdRng::seed_from_u64(seed);
        for _ in 0..50 {
            check(&generate_random_quadrants(&mut rng));
        }
    }
}

#[test]
fn quadrants_are_drawn_not_fixed() {
    let mut rng = StdRng::seed_from_u64(12345);
    let first = generate_random_quadrants(&mut rng);
    let mut x_lows = vec![first.x_low];
    let mut y_lows = vec![first.y_low];
    let mut widths = vec![first.x_high - first.x_low];
    let mut heights = vec![first.y_high - first.y_low];
    for _ in 0..500 {
        let q = generate_random_quadrants(&mut rng);
        x_lows.push(q.x_low);
        y_lows.push(q.y_low);
        widths.push(q.x_high - q.x_low);
        heights.push(q.y_high - q.y_low);
    }
    for drawn in [&mut x_lows, &mut y_lows, &mut widths, &mut heights] {
        drawn.sort();
        drawn.dedup();
        assert!(drawn.len() > 10, "{:?}", drawn);
    }
    assert!(widths.iter().all(|w| 1 <= *w && *w <= 20));
    assert!(heights.iter().all(|h| 1 <= *h && *h <= 20));
    assert!(widths.contains(&20) && heights.contains(&20));
    assert!(widths.contains(&1) && heights.contains(&1));
}

#[test]
fn quadrants_repeat_for_the_same_seed() {
    let mut a = StdRng::seed_from_u64(99);
    let mut b = StdRng::seed_from_u64(99);
    for _ in 0..20 {
        assert_eq!(generate_random_quadrants(&mut a), generate_random_quadrants(&mut b));
    }
}

#[test]
fn batches_start_every_five_thousand_pairs() {
    assert_eq!(BATCH, 5000);
    assert!(starts_batch(0));
    assert!(!starts_batch(1));
    assert!(!starts_batch(4999));
    assert!(starts_batch(5000));
    assert!(!starts_batch(5001));
    assert!(starts_batch(1_000_000));
    assert!(!starts_batch(u64::MAX));
}

#[test]
fn separator_behind_each_pair() {
    assert_eq!(pair_separator(0, 1), "\n");
    assert_eq!(pair_separator(0, 2), ",\n");
    assert_eq!(pair_separator(1, 2), "\n");
    assert_eq!(pair_separator(0, u64::MAX), ",\n");
    assert_eq!(pair_separator(u64::MAX - 1, u64::MAX), "\n");
}
