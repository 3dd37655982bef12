//! Core of a progressive raster-image renderer: positional memoization
//! caches, an incremental series cache, an execution tracer, and the
//! integer bookkeeping of a parallel render pipeline (batch partitioning,
//! pixel-stream consumption, viewport blitting, scroll handling).
//!
//! The pixel formulas themselves and the windowing layer are collaborators
//! behind narrow interfaces: the [`Art`] trait stands for the formula layer,
//! and positions, coordinates and color words are plain integer values here,
//! so that every cache, every buffer update and every clipping computation
//! is verified independently of the numeric formulas that feed them.

use vstd::prelude::*;

pub mod memo;
pub mod memo_many;
pub mod memo_once;
pub mod run;
pub mod series;
pub mod track;
pub mod utils;

verus! {

/// A 2-D evaluation position: the shared context for one pixel's evaluation.
///
/// The coordinates are carried as opaque 64-bit words (a caller working in
/// real coordinates passes their bit patterns), so equality of positions is
/// exact bit equality, which is what cache invalidation compares.
#[derive(Clone, Copy, PartialEq, Eq, Structural, Debug)]
pub struct Pos {
    pub x: u64,
    pub y: u64,
}

impl Pos {
    /// Pack two coordinate words into a position.
    pub fn new(x: u64, y: u64) -> (p: Pos)
        ensures
            p.x == x,
            p.y == y,
    {
        Pos { x, y }
    }

    /// Exact equality of positions, the single invalidation test every
    /// position-scoped cache performs.
    pub fn same_pos(&self, other: &Pos) -> (r: bool)
        ensures
            r == (self == other),
    {
        self.x == other.x && self.y == other.y
    }
}

/// Argument keys a memoization slot can hold: copyable values whose
/// structural equality is decidable by [`ArgsTraits::same`].
pub trait ArgsTraits: Sized + Copy {
    /// Decide structural equality of two keys; `r` is true exactly when the
    /// two values are equal.
    fn same(&self, other: &Self) -> (r: bool)
        ensures
            r == (self == other);
}

impl ArgsTraits for u64 {
    fn same(&self, other: &Self) -> (r: bool)
        ensures
            r == (self == other),
    {
        *self == *other
    }
}

impl ArgsTraits for usize {
    fn same(&self, other: &Self) -> (r: bool)
        ensures
            r == (self == other),
    {
        *self == *other
    }
}

impl ArgsTraits for Pos {
    fn same(&self, other: &Self) -> (r: bool)
        ensures
            r == (self == other),
    {
        self.same_pos(other)
    }
}

/// A prefix-and-position key: the full argument tuple of a memoized
/// function, split into its discrete prefix and the 2-D position.
#[derive(Clone, Copy, PartialEq, Eq, Structural, Debug)]
pub struct PrefixedArgs {
    pub prefix: u64,
    pub pos: Pos,
}

impl ArgsTraits for PrefixedArgs {
    fn same(&self, other: &Self) -> (r: bool)
        ensures
            r == (self == other),
    {
        self.prefix == other.prefix && self.pos.same_pos(&other.pos)
    }
}

/// The formula layer: one artwork, drawing one pixel at a time.
///
/// An implementation is a pure function of the pixel coordinates; the
/// render pipeline may call it concurrently from independent workers, each
/// owning its own caches. `spec_draw` names the color an implementation
/// returns, so that everything the pipeline does with the result is
/// verified against it.
pub trait Art {
    /// The image width the artwork is designed for.
    spec fn spec_full_m(&self) -> usize;

    /// The image height the artwork is designed for.
    spec fn spec_full_n(&self) -> usize;

    /// The color drawn at pixel `(x, y)`.
    spec fn spec_draw(&self, x: usize, y: usize) -> (u8, u8, u8);

    /// The image width the artwork is designed for.
    fn full_m(&self) -> (r: usize)
        ensures
            r == self.spec_full_m();

    /// The image height the artwork is designed for.
    fn full_n(&self) -> (r: usize)
        ensures
            r == self.spec_full_n();

    /// Draw the pixel at `(x, y)`.
    fn draw(&self, x: usize, y: usize) -> (c: (u8, u8, u8))
        ensures
            c == self.spec_draw(x, y);
}

} // verus!
