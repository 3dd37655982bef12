//! The incremental series cache: cumulative sum and product series over an
//! integer index, scoped to a 2-D position.
//!
//! Per key the cache holds a growable sequence of term values for indices
//! `0..=highest_requested`. A request past the highest index computes and
//! appends only the missing suffix; a request at a new position discards
//! the storage for every key first. The reduction runs left to right over
//! the stored slice, with an inclusive end for products and an exclusive
//! end for sums — an intentional per-call-site convention that is
//! preserved, not normalized away.

use vstd::prelude::*;

use crate::memo_many::find_prefix;
use crate::memo_many::lemma_find_at;
use crate::memo_many::lemma_find_none;
use crate::memo_many::lemma_find_push_other;
use crate::memo_many::lemma_find_pushed;
use crate::memo_many::lemma_find_remove;
use crate::Pos;

verus! {

/// Values a series can range over: a copyable type with the two reduction
/// operations and their units. The operations are given by specification
/// functions, so a reduction's result is pinned exactly.
pub trait SeriesValue: Sized + Copy {
    /// What [`SeriesValue::plus`] returns.
    spec fn spec_plus(self, other: Self) -> Self;

    /// What [`SeriesValue::times`] returns.
    spec fn spec_times(self, other: Self) -> Self;

    /// What [`SeriesValue::zero`] returns: the unit of `plus`.
    spec fn spec_zero() -> Self;

    /// What [`SeriesValue::one`] returns: the unit of `times`.
    spec fn spec_one() -> Self;

    /// One step of the running sum.
    fn plus(self, other: Self) -> (r: Self)
        ensures
            r == self.spec_plus(other);

    /// One step of the running product.
    fn times(self, other: Self) -> (r: Self)
        ensures
            r == self.spec_times(other);

    /// The empty sum.
    fn zero() -> (r: Self)
        ensures
            r == Self::spec_zero();

    /// The empty product.
    fn one() -> (r: Self)
        ensures
            r == Self::spec_one();
}

impl SeriesValue for u64 {
    open spec fn spec_plus(self, other: Self) -> Self {
        vstd::wrapping::u64_specs::wrapping_add(self, other)
    }

    open spec fn spec_times(self, other: Self) -> Self {
        vstd::wrapping::u64_specs::wrapping_mul(self, other)
    }

    open spec fn spec_zero() -> Self {
        0u64
    }

    open spec fn spec_one() -> Self {
        1u64
    }

    fn plus(self, other: Self) -> (r: Self)
        ensures
            r == self.spec_plus(other),
    {
        self.wrapping_add(other)
    }

    fn times(self, other: Self) -> (r: Self)
        ensures
            r == self.spec_times(other),
    {
        self.wrapping_mul(other)
    }

    fn zero() -> (r: Self)
        ensures
            r == Self::spec_zero(),
    {
        0
    }

    fn one() -> (r: Self)
        ensures
            r == Self::spec_one(),
    {
        1
    }
}

/// The left-to-right sum of a term sequence, starting from the unit.
pub open spec fn sum_of<V: SeriesValue>(s: Seq<V>) -> V
    decreases s.len(),
{
    if s.len() == 0 {
        V::spec_zero()
    } else {
        sum_of(s.drop_last()).spec_plus(s.last())
    }
}

/// The left-to-right product of a term sequence, starting from the unit.
pub open spec fn product_of<V: SeriesValue>(s: Seq<V>) -> V
    decreases s.len(),
{
    if s.len() == 0 {
        V::spec_one()
    } else {
        product_of(s.drop_last()).spec_times(s.last())
    }
}

proof fn lemma_sum_step<V: SeriesValue>(s: Seq<V>, a: int, i: int)
    requires
        0 <= a <= i < s.len(),
    ensures
        sum_of(s.subrange(a, i + 1)) == sum_of(s.subrange(a, i)).spec_plus(s[i]),
{
    assert(s.subrange(a, i + 1).drop_last() =~= s.subrange(a, i));
}

proof fn lemma_product_step<V: SeriesValue>(s: Seq<V>, a: int, i: int)
    requires
        0 <= a <= i < s.len(),
    ensures
        product_of(s.subrange(a, i + 1)) == product_of(s.subrange(a, i)).spec_times(s[i]),
{
    assert(s.subrange(a, i + 1).drop_last() =~= s.subrange(a, i));
}

fn sum_slice<V: SeriesValue>(v: &Vec<V>, from: usize, to: usize) -> (r: V)
    requires
        from <= to <= v@.len(),
    ensures
        r == sum_of(v@.subrange(from as int, to as int)),
{
    let mut acc = V::zero();
    assert(v@.subrange(from as int, from as int) =~= Seq::<V>::empty());
    let mut i = from;
    while i < to
        invariant
            from <= i <= to <= v@.len(),
            acc == sum_of(v@.subrange(from as int, i as int)),
        decreases to - i,
    {
        proof {
            lemma_sum_step(v@, from as int, i as int);
        }
        acc = acc.plus(v[i]);
        i += 1;
    }
    acc
}

fn product_slice<V: SeriesValue>(v: &Vec<V>, from: usize, to: usize) -> (r: V)
    requires
        from <= to <= v@.len(),
    ensures
        r == product_of(v@.subrange(from as int, to as int)),
{
    let mut acc = V::one();
    assert(v@.subrange(from as int, from as int) =~= Seq::<V>::empty());
    let mut i = from;
    while i < to
        invariant
            from <= i <= to <= v@.len(),
            acc == product_of(v@.subrange(from as int, i as int)),
        decreases to - i,
    {
        proof {
            lemma_product_step(v@, from as int, i as int);
        }
        acc = acc.times(v[i]);
        i += 1;
    }
    acc
}

/// The series cache for one storage scope: every key shares one remembered
/// position, and a position change clears the storage of all of them at
/// one checkpoint.
pub struct SeriesCache<V> {
    pos: Option<Pos>,
    entries: Vec<(u64, Vec<V>)>,
}

impl<V: SeriesValue> SeriesCache<V> {
    /// The position the stored series were computed at, if any.
    pub closed spec fn pos(self) -> Option<Pos> {
        self.pos
    }

    /// The stored term sequence for `key`, if the key has storage.
    pub closed spec fn terms_opt(self, key: u64) -> Option<Seq<V>> {
        match find_prefix(self.entries@, key) {
            Some(v) => Some(v@),
            None => None,
        }
    }

    /// The stored term sequence for `key`, empty if the key has none.
    pub open spec fn terms(self, key: u64) -> Seq<V> {
        match self.terms_opt(key) {
            Some(s) => s,
            None => Seq::<V>::empty(),
        }
    }

    /// Each key has at most one storage entry.
    pub closed spec fn inv(self) -> bool {
        forall|i: int, j: int|
            0 <= i < j < self.entries@.len() ==> self.entries@[i].0 != self.entries@[j].0
    }

    /// An empty cache, remembering no position.
    pub fn new() -> (c: Self)
        ensures
            c.inv(),
            c.pos() is None,
            forall|k: u64| c.terms_opt(k) is None,
    {
        let c = SeriesCache { pos: None, entries: Vec::new() };
        proof {
            assert forall|k: u64| c.terms_opt(k) is None by {
                lemma_find_none(c.entries@, k);
            }
        }
        c
    }

    fn reset_if_new_position(&mut self, pos: Pos)
        requires
            old(self).inv(),
        ensures
            final(self).inv(),
            final(self).pos() == Some(pos),
            old(self).pos() == Some(pos) ==> final(self).entries@ == old(self).entries@,
            old(self).pos() != Some(pos) ==> final(self).entries@ =~= Seq::<(u64, Vec<V>)>::empty(),
    {
        let hit = match &self.pos {
            Some(p) => p.same_pos(&pos),
            None => false,
        };
        if !hit {
            self.entries.clear();
            self.pos = Some(pos);
        }
    }

    fn find_key(&self, key: u64) -> (idx: Option<usize>)
        ensures
            match idx {
                Some(i) => i < self.entries@.len() && self.entries@[i as int].0 == key
                    && forall|j: int| 0 <= j < i ==> self.entries@[j].0 != key,
                None => forall|j: int| 0 <= j < self.entries@.len() ==> self.entries@[j].0 != key,
            },
    {
        let mut i: usize = 0;
        while i < self.entries.len()
            invariant
                0 <= i <= self.entries@.len(),
                forall|j: int| 0 <= j < i ==> self.entries@[j].0 != key,
            decreases self.entries@.len() - i,
        {
            if self.entries[i].0 == key {
                return Some(i);
            }
            i += 1;
        }
        None
    }

    /// The cumulative sum of the series `key` over `[start, end)`,
    /// extending the stored terms through index `end` first.
    pub fn sum_with_key<F: Fn(usize, Pos) -> V>(
        &mut self,
        key: u64,
        start: usize,
        end: usize,
        pos: Pos,
        term: &F,
    ) -> (r: V)
        requires
            old(self).inv(),
            start <= end < usize::MAX,
            forall|i: usize| 0 <= i <= end ==> call_requires(*term, (i, pos)),
        ensures
            final(self).inv(),
            series_post_common(*old(self), *final(self), key, end, pos, *term),
            r == sum_of(final(self).terms(key).subrange(start as int, end as int)),
    {
        let v = self.extend_terms(key, end, pos, term);
        let r = sum_slice(&v, start, end);
        self.store_terms(key, v);
        r
    }

    /// The cumulative product of the series `key` over `[start, end]`
    /// (inclusive end), extending the stored terms through index `end`
    /// first.
    pub fn product_with_key<F: Fn(usize, Pos) -> V>(
        &mut self,
        key: u64,
        start: usize,
        end: usize,
        pos: Pos,
        term: &F,
    ) -> (r: V)
        requires
            old(self).inv(),
            start <= end < usize::MAX,
            forall|i: usize| 0 <= i <= end ==> call_requires(*term, (i, pos)),
        ensures
            final(self).inv(),
            series_post_common(*old(self), *final(self), key, end, pos, *term),
            r == product_of(final(self).terms(key).subrange(start as int, end as int + 1)),
    {
        let v = self.extend_terms(key, end, pos, term);
        let r = product_slice(&v, start, end + 1);
        self.store_terms(key, v);
        r
    }

    /// Reset on a new position, take `key`'s storage out of the table, and
    /// extend it through index `end`; the caller hands it back through
    /// `store_terms`.
    fn extend_terms<F: Fn(usize, Pos) -> V>(
        &mut self,
        key: u64,
        end: usize,
        pos: Pos,
        term: &F,
    ) -> (v: Vec<V>)
        requires
            old(self).inv(),
            end < usize::MAX,
            forall|i: usize| 0 <= i <= end ==> call_requires(*term, (i, pos)),
        ensures
            final(self).inv(),
            final(self).pos() == Some(pos),
            final(self).terms_opt(key) is None,
            forall|k: u64|
                k != key ==> final(self).terms_opt(k) == (if old(self).pos() == Some(pos) {
                    old(self).terms_opt(k)
                } else {
                    None::<Seq<V>>
                }),
            extended(series_base(*old(self), key, pos), v@, end, pos, *term),
    {
        self.reset_if_new_position(pos);
        let ghost full = self.entries@;
        let mut v: Vec<V>;
        match self.find_key(key) {
            Some(i) => {
                proof {
                    lemma_find_at(full, key, i as int);
                    assert forall|j: int|
                        0 <= j < full.remove(i as int).len() implies full.remove(i as int)[j].0
                        != key by {
                        if j >= i {
                            assert(full.remove(i as int)[j] == full[j + 1]);
                        }
                    }
                    lemma_find_none(full.remove(i as int), key);
                    assert forall|k: u64| k != key implies find_prefix(full.remove(i as int), k)
                        == find_prefix(full, k) by {
                        lemma_find_remove(full, i as int, k);
                    }
                }
                let pair = self.entries.remove(i);
                v = pair.1;
            },
            None => {
                proof {
                    lemma_find_none(full, key);
                }
                v = Vec::new();
            },
        }
        let ghost base = v@;
        let mut s: usize = v.len();
        while s <= end
            invariant
                s == v@.len(),
                base.len() <= v@.len(),
                base.len() > end ==> v@.len() == base.len(),
                base.len() <= end ==> v@.len() <= end + 1,
                forall|i: int| 0 <= i < base.len() ==> v@[i] == base[i],
                forall|i: int|
                    base.len() <= i < v@.len() ==> call_ensures(*term, (i as usize, pos), v@[i]),
                end < usize::MAX,
                forall|i: usize| 0 <= i <= end ==> call_requires(*term, (i, pos)),
            decreases end + 1 - s,
        {
            let t = term(s, pos);
            v.push(t);
            s += 1;
        }
        v
    }

    /// Put the extended storage for `key` back; `key` must have none.
    fn store_terms(&mut self, key: u64, v: Vec<V>)
        requires
            old(self).inv(),
            old(self).terms_opt(key) is None,
        ensures
            final(self).inv(),
            final(self).pos() == old(self).pos(),
            final(self).terms_opt(key) == Some(v@),
            forall|k: u64| k != key ==> final(self).terms_opt(k) == old(self).terms_opt(k),
    {
        proof {
            assert forall|j: int| 0 <= j < self.entries@.len() implies self.entries@[j].0
                != key by {
                if self.entries@[j].0 == key {
                    lemma_first_occurrence(self.entries@, key, j);
                }
            }
            assert forall|k: u64| k != key implies find_prefix(self.entries@.push((key, v)), k)
                == find_prefix(self.entries@, k) by {
                lemma_find_push_other(self.entries@, k, key, v);
            }
            lemma_find_pushed(self.entries@, key, v);
        }
        self.entries.push((key, v));
    }
}

/// If some entry holds `p`, `find_prefix` succeeds.
proof fn lemma_first_occurrence<P, V>(s: Seq<(P, V)>, p: P, j: int)
    requires
        0 <= j < s.len(),
        s[j].0 == p,
    ensures
        find_prefix(s, p) is Some,
    decreases j,
{
    if s[0].0 != p {
        lemma_first_occurrence(s.drop_first(), p, j - 1);
    }
}

/// The terms `key` already holds for `pos` when a call arrives: its stored
/// sequence when the position matches, nothing otherwise.
pub open spec fn series_base<V: SeriesValue>(c0: SeriesCache<V>, key: u64, pos: Pos) -> Seq<V> {
    if c0.pos() == Some(pos) {
        c0.terms(key)
    } else {
        Seq::<V>::empty()
    }
}

/// `cur` extends `base` through index `end`: the old terms are kept
/// verbatim, and exactly the missing indices were computed by `term`.
pub open spec fn extended<V: SeriesValue, F: Fn(usize, Pos) -> V>(
    base: Seq<V>,
    cur: Seq<V>,
    end: usize,
    pos: Pos,
    term: F,
) -> bool {
    &&& cur.len() == (if base.len() >= end + 1 {
        base.len() as int
    } else {
        end + 1
    })
    &&& forall|i: int| 0 <= i < base.len() ==> cur[i] == base[i]
    &&& forall|i: int| base.len() <= i < cur.len() ==> call_ensures(term, (i as usize, pos), cur[i])
}

/// What both series reductions promise about the cache itself: the
/// remembered position is now `pos`, `key`'s storage is `base` extended
/// through `end`, every other key's storage survives exactly when the
/// position was unchanged.
pub open spec fn series_post_common<V: SeriesValue, F: Fn(usize, Pos) -> V>(
    c0: SeriesCache<V>,
    c1: SeriesCache<V>,
    key: u64,
    end: usize,
    pos: Pos,
    term: F,
) -> bool {
    &&& c1.pos() == Some(pos)
    &&& extended(series_base(c0, key, pos), c1.terms(key), end, pos, term)
    &&& forall|k: u64|
        k != key ==> c1.terms_opt(k) == (if c0.pos() == Some(pos) {
            c0.terms_opt(k)
        } else {
            None::<Seq<V>>
        })
}

/// Incremental extension: two requests for the same key at the same
/// position, the second reaching further, keep every shared term verbatim
/// and compute exactly the missing suffix.
pub proof fn lemma_series_incremental<V: SeriesValue, F: Fn(usize, Pos) -> V>(
    c0: SeriesCache<V>,
    c1: SeriesCache<V>,
    c2: SeriesCache<V>,
    key: u64,
    e1: usize,
    e2: usize,
    pos: Pos,
    term: F,
)
    requires
        series_base(c0, key, pos) == Seq::<V>::empty(),
        e1 <= e2,
        series_post_common(c0, c1, key, e1, pos, term),
        series_post_common(c1, c2, key, e2, pos, term),
    ensures
        c1.terms(key).len() == e1 + 1,
        c2.terms(key).len() == e2 + 1,
        forall|i: int| 0 <= i <= e1 ==> c2.terms(key)[i] == c1.terms(key)[i],
        forall|i: int| e1 < i <= e2 ==> call_ensures(term, (i as usize, pos), c2.terms(key)[i]),
        forall|i: int| 0 <= i <= e2 ==> call_ensures(term, (i as usize, pos), c2.terms(key)[i]),
{
}

/// The uncached running sum of `term` over the inclusive range
/// `[start, end]`, left to right; an empty range yields the unit.
pub fn sum<V: SeriesValue, F: Fn(usize) -> V>(start: usize, end: usize, term: &F) -> (r: V)
    requires
        end < usize::MAX,
        forall|i: usize| start <= i <= end ==> call_requires(*term, (i,)),
    ensures
        exists|ts: Seq<V>| #[trigger] plain_terms(ts, start, end, *term) && r == sum_of(ts),
{
    let mut acc = V::zero();
    let ghost mut ts: Seq<V> = Seq::empty();
    let mut i = start;
    while i <= end
        invariant
            start <= i,
            start <= end ==> i <= end + 1,
            start > end ==> i == start,
            ts.len() == i - start,
            forall|j: int| 0 <= j < ts.len() ==> call_ensures(*term, ((start + j) as usize,), ts[j]),
            acc == sum_of(ts),
            end < usize::MAX,
            forall|k: usize| start <= k <= end ==> call_requires(*term, (k,)),
        decreases end + 1 - i,
    {
        let t = term(i);
        acc = acc.plus(t);
        proof {
            assert(ts.push(t).drop_last() =~= ts);
            ts = ts.push(t);
        }
        i += 1;
    }
    assert(plain_terms(ts, start, end, *term));
    acc
}

/// The uncached running product of `term` over the inclusive range
/// `[start, end]`, left to right; an empty range yields the unit.
pub fn product<V: SeriesValue, F: Fn(usize) -> V>(start: usize, end: usize, term: &F) -> (r: V)
    requires
        end < usize::MAX,
        forall|i: usize| start <= i <= end ==> call_requires(*term, (i,)),
    ensures
        exists|ts: Seq<V>| #[trigger] plain_terms(ts, start, end, *term) && r == product_of(ts),
{
    let mut acc = V::one();
    let ghost mut ts: Seq<V> = Seq::empty();
    let mut i = start;
    while i <= end
        invariant
            start <= i,
            start <= end ==> i <= end + 1,
            start > end ==> i == start,
            ts.len() == i - start,
            forall|j: int| 0 <= j < ts.len() ==> call_ensures(*term, ((start + j) as usize,), ts[j]),
            acc == product_of(ts),
            end < usize::MAX,
            forall|k: usize| start <= k <= end ==> call_requires(*term, (k,)),
        decreases end + 1 - i,
    {
        let t = term(i);
        acc = acc.times(t);
        proof {
            assert(ts.push(t).drop_last() =~= ts);
            ts = ts.push(t);
        }
        i += 1;
    }
    assert(plain_terms(ts, start, end, *term));
    acc
}

/// `ts` is one admissible sequence of term values of `term` over the
/// inclusive index range `[start, end]`.
pub open spec fn plain_terms<V: SeriesValue, F: Fn(usize) -> V>(
    ts: Seq<V>,
    start: usize,
    end: usize,
    term: F,
) -> bool {
    &&& ts.len() == (if start <= end {
        end - start + 1
    } else {
        0
    })
    &&& forall|j: int| 0 <= j < ts.len() ==> call_ensures(term, ((start + j) as usize,), ts[j])
}

} // verus!
