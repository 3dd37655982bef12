use std::cell::Cell;

use sunflower_field::memo::Func;
use sunflower_field::memo_many::MemoManyFunc;
use sunflower_field::memo_once::MemoOnceFunc;
use sunflower_field::Pos;
use sunflower_field::PrefixedArgs;

#[test]
fn memo_many_determinism_same_position() {
    let calls = Cell::new(0u64);
    let mut memo: MemoManyFunc<u64, u64> = MemoManyFunc::new();
    let pos = Pos::new(10, 20);
    let f = |p: u64, q: Pos| {
        calls.set(calls.get() + 1);
        p * 1000 + q.x + q.y
    };
    let first = memo.get(7, pos, &f);
    let second = memo.get(7, pos, &f);
    assert_eq!(first, 7030);
    assert_eq!(second, 7030);
    assert_eq!(calls.get(), 1, "a repeated prefix at one position must not recompute");
}

#[test]
fn memo_many_cache_invalidation_round_trip() {
    let calls = Cell::new(0u64);
    let mut memo: MemoManyFunc<u64, u64> = MemoManyFunc::new();
    let a = Pos::new(1, 2);
    let b = Pos::new(3, 4);
    let f = |p: u64, q: Pos| {
        calls.set(calls.get() + 1);
        p + 100 * q.x + 10000 * q.y
    };
    let at_a = memo.get(5, a, &f);
    let at_b = memo.get(5, b, &f);
    let back_at_a = memo.get(5, a, &f);
    assert_eq!(at_a, 5 + 100 + 20000);
    assert_eq!(at_b, 5 + 300 + 40000);
    assert_eq!(back_at_a, at_a, "revisiting A must reproduce A's value, not B's");
    assert_ne!(back_at_a, at_b);
    assert_eq!(calls.get(), 3, "each position change forces one fresh computation");
}

#[test]
fn memo_many_thirty_prefixes_store_thirty_entries() {
    let calls = Cell::new(0u64);
    let mut memo: MemoManyFunc<u64, u64> = MemoManyFunc::new();
    let pos = Pos::new(9, 9);
    let f = |p: u64, _q: Pos| {
        calls.set(calls.get() + 1);
        p * p
    };
    for prefix in 0..30u64 {
        let v = memo.get(prefix, pos, &f);
        assert_eq!(v, prefix * prefix);
    }
    assert_eq!(memo.len(), 30);
    assert_eq!(calls.get(), 30);
    for prefix in 0..30u64 {
        let v = memo.get(prefix, pos, &f);
        assert_eq!(v, prefix * prefix);
    }
    assert_eq!(memo.len(), 30, "a seen prefix must not add an entry");
    assert_eq!(calls.get(), 30, "a seen prefix must never be recomputed");
}

#[test]
fn memo_many_new_position_clears_all_entries() {
    let mut memo: MemoManyFunc<u64, u64> = MemoManyFunc::new();
    let f = |p: u64, q: Pos| p + q.x;
    for prefix in 0..8u64 {
        memo.get(prefix, Pos::new(1, 1), &f);
    }
    assert_eq!(memo.len(), 8);
    memo.get(0, Pos::new(2, 1), &f);
    assert_eq!(memo.len(), 1, "a new position must discard every stored prefix");
}

#[test]
fn func_single_slot_hit_and_overwrite() {
    let calls = Cell::new(0u64);
    let mut func: Func<PrefixedArgs, u64> = Func::new();
    let f = |a: PrefixedArgs| {
        calls.set(calls.get() + 1);
        a.prefix + a.pos.x + a.pos.y
    };
    let args1 = PrefixedArgs { prefix: 4, pos: Pos::new(10, 1) };
    let args2 = PrefixedArgs { prefix: 9, pos: Pos::new(10, 1) };
    assert_eq!(func.get(args1, &f), 15);
    assert_eq!(func.get(args1, &f), 15);
    assert_eq!(calls.get(), 1, "identical consecutive arguments are served from the slot");
    assert_eq!(func.get(args2, &f), 20);
    assert_eq!(calls.get(), 2);
    assert_eq!(func.get(args1, &f), 15);
    assert_eq!(calls.get(), 3, "the single slot holds only the most recent arguments");
}

#[test]
fn memo_once_keeps_one_entry_only() {
    let calls = Cell::new(0u64);
    let mut memo: MemoOnceFunc<u64, u64> = MemoOnceFunc::new();
    let f = |a: u64| {
        calls.set(calls.get() + 1);
        a * 2
    };
    assert_eq!(memo.get(3, &f), 6);
    assert_eq!(memo.get(3, &f), 6);
    assert_eq!(memo.get(3, &f), 6);
    assert_eq!(calls.get(), 1);
    assert_eq!(memo.get(4, &f), 8);
    assert_eq!(memo.get(3, &f), 6);
    assert_eq!(calls.get(), 3, "alternating arguments degrade the slot to no caching");
}
