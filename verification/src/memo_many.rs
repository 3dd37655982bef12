//! The multi-slot positional memo table.
//!
//! A [`MemoManyFunc`] caches one result per distinct prefix key, scoped to
//! the current 2-D position: when the position changes, the whole table is
//! cleared. Lookups are a linear scan, which is the right trade for the
//! small discrete prefix universes this table serves.

use vstd::prelude::*;

use crate::ArgsTraits;
use crate::Pos;

verus! {

/// Prefix keys a multi-slot memo can be keyed by.
pub trait PrefixTraits: ArgsTraits {

}

impl<T: ArgsTraits> PrefixTraits for T {

}

/// The first result stored under `p`, if any.
pub open spec fn find_prefix<P, V>(s: Seq<(P, V)>, p: P) -> Option<V>
    decreases s.len(),
{
    if s.len() == 0 {
        None
    } else if s[0].0 == p {
        Some(s[0].1)
    } else {
        find_prefix(s.drop_first(), p)
    }
}

/// `find_prefix` returns the entry at `i` when `p` first occurs there.
pub(crate) proof fn lemma_find_at<P, V>(s: Seq<(P, V)>, p: P, i: int)
    requires
        0 <= i < s.len(),
        s[i].0 == p,
        forall|k: int| 0 <= k < i ==> s[k].0 != p,
    ensures
        find_prefix(s, p) == Some(s[i].1),
    decreases i,
{
    if i > 0 {
        lemma_find_at(s.drop_first(), p, i - 1);
    }
}

/// `find_prefix` fails exactly when no entry is stored under `p`.
pub(crate) proof fn lemma_find_none<P, V>(s: Seq<(P, V)>, p: P)
    requires
        forall|k: int| 0 <= k < s.len() ==> s[k].0 != p,
    ensures
        find_prefix(s, p) is None,
    decreases s.len(),
{
    if s.len() > 0 {
        assert(forall|k: int| 0 <= k < s.drop_first().len() ==> s.drop_first()[k].0 != p);
        lemma_find_none(s.drop_first(), p);
    }
}

/// A multi-slot memoized function: one `(prefix, result)` entry per
/// distinct prefix seen at the current position, all entries discarded
/// when the position changes.
pub struct MemoManyFunc<P, V> {
    map: Vec<(P, V)>,
    x: Option<u64>,
    y: Option<u64>,
}

impl<P: PrefixTraits, V: Copy> MemoManyFunc<P, V> {
    /// The position the stored entries were computed at, if any.
    pub closed spec fn pos(self) -> Option<Pos> {
        match (self.x, self.y) {
            (Some(x), Some(y)) => Some(Pos { x, y }),
            _ => None,
        }
    }

    /// The stored entries, oldest first.
    pub closed spec fn entries(self) -> Seq<(P, V)> {
        self.map@
    }

    /// Each prefix is stored at most once.
    pub closed spec fn inv(self) -> bool {
        &&& forall|i: int, j: int|
            0 <= i < j < self.map@.len() ==> self.map@[i].0 != self.map@[j].0
        &&& (self.x is Some) == (self.y is Some)
    }

    /// An empty table, remembering no position.
    pub fn new() -> (m: Self)
        ensures
            m.inv(),
            m.pos() is None,
            m.entries() =~= Seq::<(P, V)>::empty(),
    {
        MemoManyFunc { map: Vec::new(), x: None, y: None }
    }

    /// How many prefixes are stored for the current position.
    pub fn len(&self) -> (n: usize)
        ensures
            n == self.entries().len(),
    {
        self.map.len()
    }

    fn reset_if_new_position(&mut self, pos: Pos)
        requires
            old(self).inv(),
        ensures
            final(self).inv(),
            final(self).pos() == Some(pos),
            final(self).entries() == (if old(self).pos() == Some(pos) {
                old(self).entries()
            } else {
                Seq::<(P, V)>::empty()
            }),
    {
        let hit = match (self.x, self.y) {
            (Some(x), Some(y)) => x == pos.x && y == pos.y,
            _ => false,
        };
        if !hit {
            self.map.clear();
            self.x = Some(pos.x);
            self.y = Some(pos.y);
        }
    }

    /// Return the cached result for `prefix` at `pos`, computing and
    /// storing it through `compute` on a miss.
    ///
    /// The table first discards every entry if `pos` differs from the
    /// remembered position; a hit then returns the stored result
    /// unchanged, and a miss appends exactly one new entry.
    pub fn get<F: Fn(P, Pos) -> V>(&mut self, prefix: P, pos: Pos, compute: &F) -> (r: V)
        requires
            old(self).inv(),
            call_requires(*compute, (prefix, pos)),
        ensures
            final(self).inv(),
            get_post(*old(self), *final(self), prefix, pos, *compute, r),
    {
        self.reset_if_new_position(pos);
        let ghost base = self.map@;
        let mut i: usize = 0;
        while i < self.map.len()
            invariant
                self.inv(),
                self.pos() == Some(pos),
                self.map@ == base,
                base == (if old(self).pos() == Some(pos) {
                    old(self).entries()
                } else {
                    Seq::<(P, V)>::empty()
                }),
                call_requires(*compute, (prefix, pos)),
                0 <= i <= base.len(),
                forall|k: int| 0 <= k < i ==> base[k].0 != prefix,
            decreases base.len() - i,
        {
            let entry = &self.map[i];
            if entry.0.same(&prefix) {
                proof {
                    lemma_find_at(base, prefix, i as int);
                }
                return entry.1;
            }
            i += 1;
        }
        proof {
            lemma_find_none(base, prefix);
        }
        let out = compute(prefix, pos);
        self.map.push((prefix, out));
        out
    }
}

/// What one [`MemoManyFunc::get`] call promises: the relation between the
/// table before (`m0`) and after (`m1`), the queried key, the computing
/// function and the result.
pub open spec fn get_post<P: PrefixTraits, V: Copy, F: Fn(P, Pos) -> V>(
    m0: MemoManyFunc<P, V>,
    m1: MemoManyFunc<P, V>,
    prefix: P,
    pos: Pos,
    f: F,
    r: V,
) -> bool {
    let base = if m0.pos() == Some(pos) {
        m0.entries()
    } else {
        Seq::<(P, V)>::empty()
    };
    &&& m1.pos() == Some(pos)
    &&& match find_prefix(base, prefix) {
        Some(v) => r == v && m1.entries() == base,
        None => call_ensures(f, (prefix, pos), r) && m1.entries() == base.push((prefix, r)),
    }
}

/// Determinism: when `f` can only return `v` for `(prefix, pos)`, and the
/// table holds nothing stale for that query (it has not seen `pos`, or
/// whatever it stored under `prefix` is `v` itself), two successive
/// queries both return `v` — whether computed fresh or served from the
/// cache.
pub proof fn lemma_get_deterministic<P: PrefixTraits, V: Copy, F: Fn(P, Pos) -> V>(
    m0: MemoManyFunc<P, V>,
    m1: MemoManyFunc<P, V>,
    m2: MemoManyFunc<P, V>,
    prefix: P,
    pos: Pos,
    f: F,
    v: V,
    r1: V,
    r2: V,
)
    requires
        forall|r: V| call_ensures(f, (prefix, pos), r) ==> r == v,
        m0.pos() == Some(pos) ==> (find_prefix(m0.entries(), prefix) is None || find_prefix(
            m0.entries(),
            prefix,
        ) == Some(v)),
        get_post(m0, m1, prefix, pos, f, r1),
        get_post(m1, m2, prefix, pos, f, r2),
    ensures
        r1 == v,
        r2 == v,
        r1 == r2,
{
    let base = if m0.pos() == Some(pos) {
        m0.entries()
    } else {
        Seq::<(P, V)>::empty()
    };
    lemma_find_none(Seq::<(P, V)>::empty(), prefix);
    if find_prefix(base, prefix) is None {
        assert(m1.entries() == base.push((prefix, r1)));
        lemma_find_pushed(base, prefix, r1);
    }
}

/// Cache invalidation: visiting position `b` between two queries at
/// position `a` cannot leak `b`'s entry into `a`'s answer; both queries at
/// `a` return `a`'s own value.
pub proof fn lemma_cache_invalidation<P: PrefixTraits, V: Copy, F: Fn(P, Pos) -> V>(
    m0: MemoManyFunc<P, V>,
    m1: MemoManyFunc<P, V>,
    m2: MemoManyFunc<P, V>,
    m3: MemoManyFunc<P, V>,
    prefix: P,
    a: Pos,
    b: Pos,
    f: F,
    va: V,
    r1: V,
    rb: V,
    r2: V,
)
    requires
        forall|r: V| call_ensures(f, (prefix, a), r) ==> r == va,
        a != b,
        m0.pos() != Some(a),
        get_post(m0, m1, prefix, a, f, r1),
        get_post(m1, m2, prefix, b, f, rb),
        get_post(m2, m3, prefix, a, f, r2),
    ensures
        r1 == va,
        r2 == va,
        r1 == r2,
{
    let base = Seq::<(P, V)>::empty();
    lemma_find_none(base, prefix);
}

/// Memo isolation: a prefix already stored at the current position is
/// answered from the table, which is left exactly as it was; the computing
/// function is not consulted.
pub proof fn lemma_no_recompute<P: PrefixTraits, V: Copy, F: Fn(P, Pos) -> V>(
    m0: MemoManyFunc<P, V>,
    m1: MemoManyFunc<P, V>,
    prefix: P,
    pos: Pos,
    f: F,
    v: V,
    r: V,
)
    requires
        m0.pos() == Some(pos),
        find_prefix(m0.entries(), prefix) == Some(v),
        get_post(m0, m1, prefix, pos, f, r),
    ensures
        r == v,
        m1.entries() == m0.entries(),
        m1.pos() == m0.pos(),
{
}

/// A miss grows the table by exactly one entry, which is then found.
pub proof fn lemma_get_stores<P: PrefixTraits, V: Copy, F: Fn(P, Pos) -> V>(
    m0: MemoManyFunc<P, V>,
    m1: MemoManyFunc<P, V>,
    prefix: P,
    pos: Pos,
    f: F,
    r: V,
)
    requires
        m0.pos() == Some(pos),
        find_prefix(m0.entries(), prefix) is None,
        get_post(m0, m1, prefix, pos, f, r),
    ensures
        m1.entries().len() == m0.entries().len() + 1,
        find_prefix(m1.entries(), prefix) == Some(r),
        call_ensures(f, (prefix, pos), r),
{
    lemma_find_pushed(m0.entries(), prefix, r);
}

/// Appending a fresh prefix makes it findable with its value.
pub(crate) proof fn lemma_find_pushed<P, V>(s: Seq<(P, V)>, p: P, v: V)
    requires
        find_prefix(s, p) is None,
    ensures
        find_prefix(s.push((p, v)), p) == Some(v),
    decreases s.len(),
{
    if s.len() == 0 {
        assert(s.push((p, v))[0].0 == p);
    } else {
        if s[0].0 == p {
            assert(find_prefix(s, p) == Some(s[0].1));
        } else {
            lemma_find_pushed(s.drop_first(), p, v);
            assert(s.push((p, v)).drop_first() =~= s.drop_first().push((p, v)));
        }
    }
}

/// Appending an entry under a different prefix leaves a lookup unchanged.
pub(crate) proof fn lemma_find_push_other<P, V>(s: Seq<(P, V)>, p: P, q: P, v: V)
    requires
        p != q,
    ensures
        find_prefix(s.push((q, v)), p) == find_prefix(s, p),
    decreases s.len(),
{
    if s.len() == 0 {
        assert(s.push((q, v))[0].0 == q);
        assert forall|k: int| 0 <= k < s.push((q, v)).len() implies s.push((q, v))[k].0 != p by {
            assert(k == 0);
        }
        lemma_find_none(s.push((q, v)), p);
    } else {
        assert(s.push((q, v))[0] == s[0]);
        assert(s.push((q, v)).drop_first() =~= s.drop_first().push((q, v)));
        if s[0].0 != p {
            lemma_find_push_other(s.drop_first(), p, q, v);
        }
    }
}

/// Removing an entry under a different prefix leaves a lookup unchanged.
pub(crate) proof fn lemma_find_remove<P, V>(s: Seq<(P, V)>, i: int, p: P)
    requires
        0 <= i < s.len(),
        s[i].0 != p,
    ensures
        find_prefix(s.remove(i), p) == find_prefix(s, p),
    decreases s.len(),
{
    if i == 0 {
        assert(s.remove(0) =~= s.drop_first());
    } else {
        assert(s.remove(i).drop_first() =~= s.drop_first().remove(i - 1));
        assert(s.remove(i)[0] == s[0]);
        if s[0].0 != p {
            lemma_find_remove(s.drop_first(), i - 1, p);
        }
    }
}

} // verus!
