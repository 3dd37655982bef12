//! The single-entry positional memo, companion to [`crate::memo::Func`].
//!
//! [`MemoOnceFunc`] keeps exactly one entry and resets on any change in
//! arguments; it shares its contract, [`crate::memo::single_slot_post`],
//! with `Func`.

use vstd::prelude::*;

use crate::memo::single_slot_post;
use crate::ArgsTraits;

verus! {

/// A single-slot memoized function: keeps exactly one `(args, output)`
/// entry, reset on any change in arguments.
pub struct MemoOnceFunc<K, V> {
    args: Option<K>,
    output: Option<V>,
}

impl<K: ArgsTraits, V: Copy> MemoOnceFunc<K, V> {
    /// The stored arguments, if a call has been cached.
    pub closed spec fn stored_args(self) -> Option<K> {
        self.args
    }

    /// The stored result, if a call has been cached.
    pub closed spec fn stored_output(self) -> Option<V> {
        self.output
    }

    /// The slot holds both halves of a pair or neither.
    pub closed spec fn inv(self) -> bool {
        (self.args is Some) == (self.output is Some)
    }

    /// An empty slot.
    pub fn new() -> (f: Self)
        ensures
            f.inv(),
            f.stored_args() is None,
            f.stored_output() is None,
    {
        MemoOnceFunc { args: None, output: None }
    }

    /// Return the cached result when `args` equals the stored arguments,
    /// otherwise recompute through `compute` and overwrite the slot.
    pub fn get<F: Fn(K) -> V>(&mut self, args: K, compute: &F) -> (r: V)
        requires
            old(self).inv(),
            call_requires(*compute, (args,)),
        ensures
            final(self).inv(),
            single_slot_post(
                old(self).stored_args(),
                old(self).stored_output(),
                final(self).stored_args(),
                final(self).stored_output(),
                args,
                *compute,
                r,
            ),
    {
        let hit = match (&self.args, &self.output) {
            (Some(stored), Some(_)) => stored.same(&args),
            _ => false,
        };
        if hit {
            match &self.output {
                Some(out) => *out,
                None => unreached(),
            }
        } else {
            let out = compute(args);
            self.args = Some(args);
            self.output = Some(out);
            out
        }
    }
}

} // verus!
