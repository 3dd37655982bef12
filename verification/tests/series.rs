use std::cell::Cell;

use sunflower_field::series::product;
use sunflower_field::series::sum;
use sunflower_field::series::SeriesCache;
use sunflower_field::Pos;

#[test]
fn series_incremental_extension_counts_terms_once() {
    let calls = Cell::new(0u64);
    let mut cache: SeriesCache<u64> = SeriesCache::new();
    let pos = Pos::new(5, 6);
    let term = |i: usize, _p: Pos| {
        calls.set(calls.get() + 1);
        (i as u64) + 1
    };
    // Product over the inclusive range [0, 3]: terms 1, 2, 3, 4.
    let small = cache.product_with_key(1, 0, 3, pos, &term);
    assert_eq!(small, 24);
    assert_eq!(calls.get(), 4, "indices 0 through 3 are computed once each");
    // Extending to [0, 5] must only compute the two missing terms.
    let large = cache.product_with_key(1, 0, 5, pos, &term);
    assert_eq!(large, 720);
    assert_eq!(calls.get(), 6, "only indices 4 and 5 are new; 6 total, not 10");
}

#[test]
fn series_sum_uses_exclusive_end() {
    let mut cache: SeriesCache<u64> = SeriesCache::new();
    let pos = Pos::new(0, 0);
    let term = |i: usize, _p: Pos| (i as u64) + 1;
    // Sum over [1, 3): terms at indices 1 and 2, even though storage
    // reaches index 3.
    let s = cache.sum_with_key(2, 1, 3, pos, &term);
    assert_eq!(s, 2 + 3);
}

#[test]
fn series_position_change_clears_every_key() {
    let calls = Cell::new(0u64);
    let mut cache: SeriesCache<u64> = SeriesCache::new();
    let term = |i: usize, p: Pos| {
        calls.set(calls.get() + 1);
        (i as u64) + p.x
    };
    let a = Pos::new(1, 0);
    let b = Pos::new(2, 0);
    let at_a = cache.product_with_key(1, 0, 2, a, &term);
    cache.product_with_key(2, 0, 2, a, &term);
    assert_eq!(calls.get(), 6);
    let at_b = cache.product_with_key(1, 0, 2, b, &term);
    assert_eq!(calls.get(), 9, "the new position recomputes key 1");
    cache.product_with_key(2, 0, 2, b, &term);
    assert_eq!(calls.get(), 12, "every key sharing the scope was discarded");
    let back_at_a = cache.product_with_key(1, 0, 2, a, &term);
    assert_eq!(back_at_a, at_a, "revisiting A reproduces A's product exactly");
    assert_ne!(at_a, at_b);
}

#[test]
fn series_cached_result_is_bit_identical() {
    let mut cache: SeriesCache<u64> = SeriesCache::new();
    let pos = Pos::new(7, 7);
    let term = |i: usize, _p: Pos| 3 * (i as u64) + 1;
    let fresh = cache.sum_with_key(9, 0, 10, pos, &term);
    let cached = cache.sum_with_key(9, 0, 10, pos, &term);
    assert_eq!(fresh, cached);
}

#[test]
fn plain_sum_is_inclusive_and_left_to_right() {
    let term = |i: usize| i as u64;
    assert_eq!(sum(1, 30, &term), (1..=30).sum::<u64>());
    assert_eq!(sum(4, 4, &term), 4);
    // An empty range yields the unit of the sum.
    assert_eq!(sum(5, 4, &term), 0);
}

#[test]
fn plain_product_is_inclusive_and_left_to_right() {
    let term = |i: usize| (i as u64) + 1;
    assert_eq!(product(0, 5, &term), 720);
    assert_eq!(product(2, 2, &term), 3);
    // An empty range yields the unit of the product.
    assert_eq!(product(3, 2, &term), 1);
}
