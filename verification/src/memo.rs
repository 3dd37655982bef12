//! The single-slot memoized function.
//!
//! A [`Func`] keeps at most one `(args, output)` pair: a call with the
//! stored arguments is answered from the slot, any other call recomputes
//! and overwrites it. This serves call sites that repeat the same full
//! argument tuple in immediate succession; alternating argument tuples
//! degrade it to no caching, which is accepted behavior.

use vstd::prelude::*;

use crate::ArgsTraits;

verus! {

/// A single-slot memoized function: the last arguments and the result they
/// produced, or nothing before the first call.
#[derive(Clone, Copy)]
pub struct Func<K, V> {
    args: Option<K>,
    output: Option<V>,
}

impl<K: ArgsTraits, V: Copy> Func<K, V> {
    /// The stored arguments, if a call has been cached.
    pub closed spec fn stored_args(self) -> Option<K> {
        self.args
    }

    /// The stored result, if a call has been cached.
    pub closed spec fn stored_output(self) -> Option<V> {
        self.output
    }

    /// The slot holds both halves of a pair or neither.
    pub closed spec fn inv(self) -> bool {
        (self.args is Some) == (self.output is Some)
    }

    /// An empty slot.
    pub fn new() -> (f: Self)
        ensures
            f.inv(),
            f.stored_args() is None,
            f.stored_output() is None,
    {
        Func { args: None, output: None }
    }

    /// Return the cached result when `args` equals the stored arguments,
    /// otherwise recompute through `compute` and overwrite the slot.
    pub fn get<F: Fn(K) -> V>(&mut self, args: K, compute: &F) -> (r: V)
        requires
            old(self).inv(),
            call_requires(*compute, (args,)),
        ensures
            final(self).inv(),
            single_slot_post(
                old(self).stored_args(),
                old(self).stored_output(),
                final(self).stored_args(),
                final(self).stored_output(),
                args,
                *compute,
                r,
            ),
    {
        let hit = match (&self.args, &self.output) {
            (Some(stored), Some(_)) => stored.same(&args),
            _ => false,
        };
        if hit {
            match &self.output {
                Some(out) => *out,
                None => unreached(),
            }
        } else {
            let out = compute(args);
            self.args = Some(args);
            self.output = Some(out);
            out
        }
    }
}

/// What one single-slot lookup promises: a hit returns the stored result
/// and leaves the slot unchanged; a miss stores the newly computed pair.
pub open spec fn single_slot_post<K, V, F: Fn(K) -> V>(
    args0: Option<K>,
    out0: Option<V>,
    args1: Option<K>,
    out1: Option<V>,
    args: K,
    f: F,
    r: V,
) -> bool {
    if args0 == Some(args) && out0 is Some {
        &&& r == out0->0
        &&& args1 == args0
        &&& out1 == out0
    } else {
        &&& call_ensures(f, (args,), r)
        &&& args1 == Some(args)
        &&& out1 == Some(r)
    }
}

} // verus!
