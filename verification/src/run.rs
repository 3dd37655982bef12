//! The render pipeline's verified bookkeeping.
//!
//! The pixel index space `[0, width*height)` is split into fixed-size
//! batches, each computed independently by evaluating the artwork for
//! every index of the batch; completed batches stream back, in any order,
//! to the single owner of the image buffer, which writes the pixels,
//! counts delivered ones, and flips a one-way `finished` flag when every
//! pixel has arrived. Displaying the buffer applies a scroll offset and
//! clips the blit at all four edges. The workers, channel, event loop and
//! display surface live outside; everything they decide with is here.

use vstd::prelude::*;

use vstd::arithmetic::div_mod::lemma_fundamental_div_mod;
use vstd::arithmetic::div_mod::lemma_fundamental_div_mod_converse_div;
use vstd::arithmetic::div_mod::lemma_div_is_ordered;
use vstd::arithmetic::div_mod::lemma_div_plus_one;
use vstd::set_lib::lemma_int_range;
use vstd::set_lib::set_int_range;
use vstd::set_lib::lemma_len_subset;
use vstd::set_lib::lemma_subset_equality;

use crate::utils::spec_softbuffer_color;
use crate::utils::softbuffer_color;
use crate::utils::xy_from_index;
use crate::Art;

verus! {

/// The number of batches that cover `total` pixels: `total / batch_size`,
/// rounded up.
pub open spec fn spec_batch_count(total: int, batch_size: int) -> int {
    (total + batch_size - 1) / batch_size
}

/// How many pixel indices batch `counter` holds: a full `batch_size`,
/// except for the final partial batch.
pub open spec fn spec_batch_len(counter: int, batch_size: int, total: int) -> int {
    vstd::math::min(batch_size, total - counter * batch_size)
}

/// The number of batches needed to cover `total` pixel indices.
pub fn batch_count(total: usize, batch_size: usize) -> (count: usize)
    requires
        batch_size > 0,
    ensures
        count == spec_batch_count(total as int, batch_size as int),
        count * batch_size >= total,
{
    let q = total / batch_size;
    let r = total % batch_size;
    proof {
        lemma_fundamental_div_mod(total as int, batch_size as int);
        assert((q + 1) * (batch_size as int) == q * (batch_size as int) + batch_size
            && q * (batch_size as int) == (batch_size as int) * (q as int)
            && q * (batch_size as int) >= q) by (nonlinear_arith)
            requires
                batch_size >= 1,
                q >= 0,
        ;
        if r == 0 {
            lemma_fundamental_div_mod_converse_div(
                total + batch_size - 1,
                batch_size as int,
                q as int,
                batch_size - 1,
            );
        } else {
            lemma_fundamental_div_mod_converse_div(
                total + batch_size - 1,
                batch_size as int,
                q + 1,
                r - 1,
            );
        }
    }
    if r != 0 {
        q + 1
    } else {
        q
    }
}

/// The first index and length of batch `counter`.
pub fn batch_range(counter: usize, batch_size: usize, total: usize) -> (range: (usize, usize))
    requires
        batch_size > 0,
        counter * batch_size < total,
    ensures
        range.0 == counter * batch_size,
        range.1 == spec_batch_len(counter as int, batch_size as int, total as int),
        range.0 + range.1 <= total,
        range.1 >= 1,
{
    let start = counter * batch_size;
    let remaining = total - start;
    let len = if batch_size < remaining {
        batch_size
    } else {
        remaining
    };
    (start, len)
}

/// Every pixel index below `total` lies in exactly one batch: the one
/// whose counter is `index / batch_size`.
pub proof fn lemma_batch_cover(total: int, batch_size: int, index: int)
    requires
        batch_size > 0,
        0 <= index < total,
    ensures
        ({
            let c = index / batch_size;
            &&& 0 <= c < spec_batch_count(total, batch_size)
            &&& c * batch_size <= index < c * batch_size + spec_batch_len(c, batch_size, total)
            &&& forall|j: int|
                0 <= j < spec_batch_count(total, batch_size) && j != c ==> !(#[trigger] (j
                    * batch_size) <= index < j * batch_size + spec_batch_len(
                    j,
                    batch_size,
                    total,
                ))
        }),
{
    let c = index / batch_size;
    lemma_fundamental_div_mod(index, batch_size);
    assert(index == batch_size * c + index % batch_size);
    lemma_div_is_ordered(index, total - 1, batch_size);
    lemma_div_plus_one(total - 1, batch_size);
    assert(c * batch_size <= index) by (nonlinear_arith)
        requires
            index == batch_size * c + index % batch_size,
            index % batch_size >= 0,
    ;
    assert(index < (c + 1) * batch_size) by (nonlinear_arith)
        requires
            index == batch_size * c + index % batch_size,
            index % batch_size < batch_size,
    ;
    assert forall|j: int|
        0 <= j < spec_batch_count(total, batch_size) && j != c implies !(#[trigger] (j
        * batch_size) <= index < j * batch_size + spec_batch_len(j, batch_size, total)) by {
        if j < c {
            assert((j + 1) * batch_size <= c * batch_size && (j + 1) * batch_size == j
                * batch_size + batch_size) by (nonlinear_arith)
                requires
                    j + 1 <= c,
                    batch_size > 0,
            ;
        } else {
            assert(c < j);
            assert((c + 1) * batch_size <= j * batch_size) by (nonlinear_arith)
                requires
                    c + 1 <= j,
                    batch_size > 0,
            ;
        }
    }
}

/// Compute the pixels of one batch: for each offset, the flattened index
/// `index + offset` is decomposed row-major against `width` and the
/// artwork's color is packed into a display word.
///
/// Offsets past the end of the image are still computed (their rows lie
/// below the image); the consumer clips them when the batch lands.
pub fn compute_batch<A: Art>(art: &A, width: usize, index: usize, count: usize) -> (pixels: Vec<
    u32,
>)
    requires
        width > 0,
        index + count <= usize::MAX,
    ensures
        pixels@.len() == count,
        forall|k: int|
            0 <= k < count ==> #[trigger] pixels@[k] == spec_softbuffer_color(
                art.spec_draw(((index + k) as usize) % width, ((index + k) as usize) / width),
            ),
{
    let mut pixels: Vec<u32> = Vec::new();
    let mut offset: usize = 0;
    while offset < count
        invariant
            offset <= count,
            width > 0,
            index + count <= usize::MAX,
            pixels@.len() == offset,
            forall|k: int|
                0 <= k < offset ==> #[trigger] pixels@[k] == spec_softbuffer_color(
                    art.spec_draw(((index + k) as usize) % width, ((index + k) as usize) / width),
                ),
        decreases count - offset,
    {
        let (x, y) = xy_from_index(width, index + offset);
        let rgb = art.draw(x, y);
        pixels.push(softbuffer_color(rgb));
        offset += 1;
    }
    pixels
}

/// The single owner of the image buffer: writes arriving batches into the
/// flat pixel array, counts delivered pixels, and flips `finished` once —
/// and only once — when the count reaches the whole image.
pub struct RenderState {
    image: Vec<u32>,
    drawn: usize,
    finished: bool,
    covered: Ghost<Set<int>>,
}

impl RenderState {
    /// The image buffer's contents.
    pub closed spec fn image(self) -> Seq<u32> {
        self.image@
    }

    /// How many pixels have been delivered.
    pub closed spec fn drawn(self) -> int {
        self.drawn as int
    }

    /// Whether the pipeline has delivered every pixel.
    pub closed spec fn finished(self) -> bool {
        self.finished
    }

    /// The set of pixel indices delivered so far.
    pub closed spec fn covered(self) -> Set<int> {
        self.covered@
    }

    /// The delivered-index set is an exact tally of `drawn` and stays
    /// inside the image.
    pub closed spec fn inv(self) -> bool {
        &&& self.covered@.finite()
        &&& self.covered@.subset_of(set_int_range(0, self.image@.len() as int))
        &&& self.drawn == self.covered@.len()
    }

    /// A fresh buffer of `width * height` pixels, all set to `fill`,
    /// with nothing delivered.
    pub fn new(width: usize, height: usize, fill: u32) -> (s: RenderState)
        requires
            width * height <= usize::MAX,
        ensures
            s.inv(),
            s.image() =~= Seq::new((width * height) as nat, |i: int| fill),
            s.drawn() == 0,
            !s.finished(),
            s.covered() =~= Set::<int>::empty(),
    {
        let total = width * height;
        let image = vec![fill; total];
        RenderState { image, drawn: 0, finished: false, covered: Ghost(Set::empty()) }
    }

    /// The length of the image buffer.
    pub fn image_len(&self) -> (n: usize)
        ensures
            n == self.image().len(),
    {
        self.image.len()
    }

    /// Borrow the image buffer, for blitting to a surface.
    pub fn image_ref(&self) -> (r: &Vec<u32>)
        ensures
            r@ == self.image(),
    {
        &self.image
    }

    /// How many pixels have been delivered.
    pub fn drawn_count(&self) -> (n: usize)
        ensures
            n == self.drawn(),
    {
        self.drawn
    }

    /// Whether the pipeline has delivered every pixel.
    pub fn is_finished(&self) -> (r: bool)
        ensures
            r == self.finished(),
    {
        self.finished
    }

    /// Write one arriving batch at `index`, clipping whatever part of it
    /// lies past the end of the buffer, and count the written pixels.
    ///
    /// Each pixel index is delivered at most once across a run, which the
    /// disjointness premise states; under it, `drawn` remains an exact
    /// count of distinct delivered indices.
    pub fn apply_batch(&mut self, index: usize, pixels: &Vec<u32>) -> (written: usize)
        requires
            old(self).inv(),
            index <= old(self).image().len(),
            index + pixels@.len() <= usize::MAX,
            forall|i: int|
                index <= i < index + vstd::math::min(
                    pixels@.len() as int,
                    old(self).image().len() - index,
                ) ==> !old(self).covered().contains(i),
        ensures
            final(self).inv(),
            written == vstd::math::min(pixels@.len() as int, old(self).image().len() - index),
            final(self).image().len() == old(self).image().len(),
            forall|i: int|
                index <= i < index + written ==> final(self).image()[i] == pixels@[i - index],
            forall|i: int|
                0 <= i < final(self).image().len() && !(index <= i < index + written)
                    ==> final(self).image()[i] == old(self).image()[i],
            final(self).drawn() == old(self).drawn() + written,
            final(self).covered() =~= old(self).covered().union(
                set_int_range(index as int, index + written),
            ),
            final(self).finished() == old(self).finished(),
    {
        let image_len = self.image.len();
        let avail = image_len - index;
        let len = if pixels.len() < avail {
            pixels.len()
        } else {
            avail
        };
        let mut k: usize = 0;
        while k < len
            invariant
                k <= len,
                self.image@.len() == image_len,
                index + len <= image_len,
                pixels@.len() >= len,
                self.image@.len() == old(self).image().len(),
                forall|i: int|
                    index <= i < index + k ==> self.image@[i] == pixels@[i - index],
                forall|i: int|
                    0 <= i < self.image@.len() && !(index <= i < index + k) ==> self.image@[i]
                        == old(self).image()[i],
                self.drawn == old(self).drawn,
                self.finished == old(self).finished,
                self.covered == old(self).covered,
            decreases len - k,
        {
            let value = pixels[k];
            self.image[index + k] = value;
            k += 1;
        }
        proof {
            let range = set_int_range(index as int, index + len);
            assert(len == vstd::math::min(pixels@.len() as int, old(self).image().len() - index));
            assert forall|a: int| self.covered@.contains(a) implies !range.contains(a) by {
                if index <= a < index + len {
                    assert(!old(self).covered().contains(a));
                }
            }
            assert(self.covered@.disjoint(range));
            lemma_int_range(index as int, index + len);
            lemma_len_disjoint_union(self.covered@, range);
            lemma_int_range(0, self.image@.len() as int);
            assert(self.covered@.union(range).subset_of(
                set_int_range(0, self.image@.len() as int),
            ));
            lemma_len_subset(
                self.covered@.union(range),
                set_int_range(0, self.image@.len() as int),
            );
        }
        self.drawn = self.drawn + len;
        proof {
            self.covered@ = self.covered@.union(set_int_range(index as int, index + len));
        }
        len
    }

    /// Decide whether the run just completed: true exactly on the call
    /// that sees every pixel delivered for the first time. `finished` is
    /// a one-way transition; nothing changes after it is set.
    pub fn finish_check(&mut self) -> (just_finished: bool)
        requires
            old(self).inv(),
        ensures
            final(self).inv(),
            final(self).image() == old(self).image(),
            final(self).drawn() == old(self).drawn(),
            final(self).covered() == old(self).covered(),
            final(self).finished() == (old(self).finished() || old(self).drawn() >= old(self).image().len()),
            just_finished == (!old(self).finished() && old(self).drawn() >= old(self).image().len()),
    {
        let just = !self.finished && self.drawn >= self.image.len();
        if just {
            self.finished = true;
        }
        just
    }

    /// Pixel-stream completeness: once the delivered count reaches the
    /// image size, the delivered-index set is exactly `[0, len)` — every
    /// index arrived, none twice.
    pub proof fn lemma_all_covered(self)
        requires
            self.inv(),
            self.drawn() >= self.image().len(),
        ensures
            self.covered() =~= set_int_range(0, self.image().len() as int),
    {
        let whole = set_int_range(0, self.image().len() as int);
        lemma_int_range(0, self.image().len() as int);
        lemma_len_subset(self.covered@, whole);
        lemma_subset_equality(self.covered@, whole);
    }
}

/// The leading destination rows or columns skipped on one axis: a
/// positive scroll pushes the image into the surface by that much, capped
/// at the surface's extent.
pub open spec fn spec_skip_dest(scroll: int, dest: int) -> int {
    vstd::math::min(vstd::math::max(scroll, 0), dest)
}

/// The leading source rows or columns skipped on one axis: a negative
/// scroll pulls the image out of the surface by that much, capped at the
/// source's extent.
pub open spec fn spec_skip_src(scroll: int, src: int) -> int {
    vstd::math::min(vstd::math::max(-scroll, 0), src)
}

/// The copied extent on one axis: what remains of both source and
/// destination after their skips, floored at zero.
pub open spec fn spec_take(scroll: int, src: int, dest: int) -> int {
    vstd::math::max(
        vstd::math::min(dest - spec_skip_dest(scroll, dest), src - spec_skip_src(scroll, src)),
        0,
    )
}

/// The clipped rectangle of one blit: per axis, how much of the
/// destination and of the source to skip, and how much to copy.
pub struct BlitRect {
    pub skip_dest_x: usize,
    pub skip_src_x: usize,
    pub take_x: usize,
    pub skip_dest_y: usize,
    pub skip_src_y: usize,
    pub take_y: usize,
}

/// Clip one axis of a blit.
fn clip_axis(scroll: i64, src: usize, dest: usize) -> (r: (usize, usize, usize))
    requires
        scroll > i64::MIN,
        src <= i64::MAX,
        dest <= i64::MAX,
    ensures
        r.0 == spec_skip_dest(scroll as int, dest as int),
        r.1 == spec_skip_src(scroll as int, src as int),
        r.2 == spec_take(scroll as int, src as int, dest as int),
        r.0 + r.2 <= dest,
        r.1 + r.2 <= src,
{
    let skip_dest: usize = if scroll <= 0 {
        0
    } else if scroll < dest as i64 {
        scroll as usize
    } else {
        dest
    };
    let skip_src: usize = if scroll >= 0 {
        0
    } else if -scroll < src as i64 {
        (-scroll) as usize
    } else {
        src
    };
    let dest_left = dest - skip_dest;
    let src_left = src - skip_src;
    let take = if dest_left < src_left {
        dest_left
    } else {
        src_left
    };
    (skip_dest, skip_src, take)
}

/// Compute the clipped rectangle for blitting a `src_w` by `src_h` image
/// into a `dest_w` by `dest_h` surface at scroll offset
/// `(scroll_x, scroll_y)`. An offset larger than either extent yields an
/// empty rectangle, never an error.
pub fn blit_rect(
    scroll_x: i64,
    scroll_y: i64,
    src_w: usize,
    src_h: usize,
    dest_w: usize,
    dest_h: usize,
) -> (b: BlitRect)
    requires
        scroll_x > i64::MIN,
        scroll_y > i64::MIN,
        src_w <= i64::MAX,
        src_h <= i64::MAX,
        dest_w <= i64::MAX,
        dest_h <= i64::MAX,
    ensures
        b.skip_dest_x == spec_skip_dest(scroll_x as int, dest_w as int),
        b.skip_src_x == spec_skip_src(scroll_x as int, src_w as int),
        b.take_x == spec_take(scroll_x as int, src_w as int, dest_w as int),
        b.skip_dest_y == spec_skip_dest(scroll_y as int, dest_h as int),
        b.skip_src_y == spec_skip_src(scroll_y as int, src_h as int),
        b.take_y == spec_take(scroll_y as int, src_h as int, dest_h as int),
        b.skip_dest_x + b.take_x <= dest_w,
        b.skip_src_x + b.take_x <= src_w,
        b.skip_dest_y + b.take_y <= dest_h,
        b.skip_src_y + b.take_y <= src_h,
{
    let (skip_dest_x, skip_src_x, take_x) = clip_axis(scroll_x, src_w, dest_w);
    let (skip_dest_y, skip_src_y, take_y) = clip_axis(scroll_y, src_h, dest_h);
    BlitRect { skip_dest_x, skip_src_x, take_x, skip_dest_y, skip_src_y, take_y }
}

/// The color the blitted surface holds at `(dx, dy)`: the source pixel
/// the scroll maps there when `(dx, dy)` lies in the clipped rectangle,
/// black everywhere else.
pub open spec fn spec_blit_pixel(
    src: Seq<u32>,
    src_w: int,
    src_h: int,
    dest_w: int,
    dest_h: int,
    scroll_x: int,
    scroll_y: int,
    dx: int,
    dy: int,
) -> u32 {
    let sdx = spec_skip_dest(scroll_x, dest_w);
    let ssx = spec_skip_src(scroll_x, src_w);
    let tx = spec_take(scroll_x, src_w, dest_w);
    let sdy = spec_skip_dest(scroll_y, dest_h);
    let ssy = spec_skip_src(scroll_y, src_h);
    let ty = spec_take(scroll_y, src_h, dest_h);
    if sdx <= dx < sdx + tx && sdy <= dy < sdy + ty {
        src[(dy - sdy + ssy) * src_w + (dx - sdx + ssx)]
    } else {
        0u32
    }
}

proof fn lemma_row_major_bound(row: int, col: int, w: int, h: int)
    requires
        0 <= row < h,
        0 <= col < w,
    ensures
        0 <= row * w + col < w * h,
        row * w >= 0,
{
    assert(row * w + col < w * h) by (nonlinear_arith)
        requires
            0 <= row < h,
            0 <= col < w,
    ;
    assert(row * w >= 0) by (nonlinear_arith)
        requires
            row >= 0,
            w >= 0,
    ;
}

/// Blit the image into the surface buffer: clear it to black, then copy
/// the clipped rectangle row by row. Every surface pixel ends up exactly
/// as [`spec_blit_pixel`] maps it; no out-of-bounds read or write can
/// occur, whatever the scroll offset.
pub fn blit(
    src: &Vec<u32>,
    src_w: usize,
    src_h: usize,
    dest: &mut Vec<u32>,
    dest_w: usize,
    dest_h: usize,
    scroll_x: i64,
    scroll_y: i64,
)
    requires
        src@.len() == src_w * src_h,
        old(dest)@.len() == dest_w * dest_h,
        scroll_x > i64::MIN,
        scroll_y > i64::MIN,
        src_w <= i64::MAX,
        src_h <= i64::MAX,
        dest_w <= i64::MAX,
        dest_h <= i64::MAX,
    ensures
        final(dest)@.len() == dest_w * dest_h,
        forall|i: int|
            0 <= i < final(dest)@.len() ==> #[trigger] final(dest)@[i] == spec_blit_pixel(
                src@,
                src_w as int,
                src_h as int,
                dest_w as int,
                dest_h as int,
                scroll_x as int,
                scroll_y as int,
                i % (dest_w as int),
                i / (dest_w as int),
            ),
{
    let dest_len = dest.len();
    let mut i: usize = 0;
    while i < dest_len
        invariant
            i <= dest_len,
            dest@.len() == dest_len,
            forall|k: int| 0 <= k < i ==> dest@[k] == 0u32,
        decreases dest_len - i,
    {
        dest[i] = 0;
        i += 1;
    }
    let src_len = src.len();
    let r = blit_rect(scroll_x, scroll_y, src_w, src_h, dest_w, dest_h);
    let ghost sdx = r.skip_dest_x as int;
    let ghost ssx = r.skip_src_x as int;
    let ghost tx = r.take_x as int;
    let ghost sdy = r.skip_dest_y as int;
    let ghost ssy = r.skip_src_y as int;
    let ghost ty = r.take_y as int;
    proof {
        if dest_w > 0 {
            assert forall|k: int| 0 <= k < dest@.len() implies dest@[k] == blit_partial(
                src@,
                src_w as int,
                src_h as int,
                dest_w as int,
                dest_h as int,
                scroll_x as int,
                scroll_y as int,
                k,
                0,
                0,
            ) by {
                lemma_fundamental_div_mod(k, dest_w as int);
                vstd::arithmetic::div_mod::lemma_mod_bound(k, dest_w as int);
                assert(k / (dest_w as int) >= 0) by (nonlinear_arith)
                    requires
                        k >= 0,
                        dest_w > 0,
                ;
            }
        }
    }
    let mut y: usize = 0;
    while y < r.take_y
        invariant
            y <= r.take_y,
            dest@.len() == dest_len,
            dest_len == dest_w * dest_h,
            src@.len() == src_w * src_h,
            src@.len() == src_len,
            r.skip_dest_x as int == sdx && r.skip_src_x as int == ssx && r.take_x as int == tx,
            r.skip_dest_y as int == sdy && r.skip_src_y as int == ssy && r.take_y as int == ty,
            sdx == spec_skip_dest(scroll_x as int, dest_w as int),
            ssx == spec_skip_src(scroll_x as int, src_w as int),
            tx == spec_take(scroll_x as int, src_w as int, dest_w as int),
            sdy == spec_skip_dest(scroll_y as int, dest_h as int),
            ssy == spec_skip_src(scroll_y as int, src_h as int),
            ty == spec_take(scroll_y as int, src_h as int, dest_h as int),
            sdx + tx <= dest_w && ssx + tx <= src_w,
            sdy + ty <= dest_h && ssy + ty <= src_h,
            forall|k: int|
                0 <= k < dest@.len() ==> #[trigger] dest@[k] == blit_partial(
                    src@,
                    src_w as int,
                    src_h as int,
                    dest_w as int,
                    dest_h as int,
                    scroll_x as int,
                    scroll_y as int,
                    k,
                    y as int,
                    0,
                ),
        decreases r.take_y - y,
    {
        let mut x: usize = 0;
        while x < r.take_x
            invariant
                x <= r.take_x,
                y < r.take_y,
                dest@.len() == dest_len,
                dest_len == dest_w * dest_h,
                src@.len() == src_w * src_h,
                src@.len() == src_len,
                r.skip_dest_x as int == sdx && r.skip_src_x as int == ssx && r.take_x as int
                    == tx,
                r.skip_dest_y as int == sdy && r.skip_src_y as int == ssy && r.take_y as int
                    == ty,
                sdx == spec_skip_dest(scroll_x as int, dest_w as int),
                ssx == spec_skip_src(scroll_x as int, src_w as int),
                tx == spec_take(scroll_x as int, src_w as int, dest_w as int),
                sdy == spec_skip_dest(scroll_y as int, dest_h as int),
                ssy == spec_skip_src(scroll_y as int, src_h as int),
                ty == spec_take(scroll_y as int, src_h as int, dest_h as int),
                sdx + tx <= dest_w && ssx + tx <= src_w,
                sdy + ty <= dest_h && ssy + ty <= src_h,
                forall|k: int|
                    0 <= k < dest@.len() ==> #[trigger] dest@[k] == blit_partial(
                        src@,
                        src_w as int,
                        src_h as int,
                        dest_w as int,
                        dest_h as int,
                        scroll_x as int,
                        scroll_y as int,
                        k,
                        y as int,
                        x as int,
                    ),
            decreases r.take_x - x,
        {
            let dest_row = r.skip_dest_y + y;
            let dest_col = r.skip_dest_x + x;
            let src_row = r.skip_src_y + y;
            let src_col = r.skip_src_x + x;
            proof {
                lemma_row_major_bound(dest_row as int, dest_col as int, dest_w as int, dest_h as int);
                lemma_row_major_bound(src_row as int, src_col as int, src_w as int, src_h as int);
            }
            let dest_idx = dest_row * dest_w + dest_col;
            let src_idx = src_row * src_w + src_col;
            let value = src[src_idx];
            dest[dest_idx] = value;
            proof {
                lemma_fundamental_div_mod_converse_div(
                    dest_idx as int,
                    dest_w as int,
                    dest_row as int,
                    dest_col as int,
                );
                vstd::arithmetic::div_mod::lemma_fundamental_div_mod_converse_mod(
                    dest_idx as int,
                    dest_w as int,
                    dest_row as int,
                    dest_col as int,
                );
                assert forall|k: int| 0 <= k < dest@.len() implies #[trigger] dest@[k]
                    == blit_partial(
                    src@,
                    src_w as int,
                    src_h as int,
                    dest_w as int,
                    dest_h as int,
                    scroll_x as int,
                    scroll_y as int,
                    k,
                    y as int,
                    x as int + 1,
                ) by {
                    let dw = dest_w as int;
                    lemma_fundamental_div_mod(k, dw);
                    vstd::arithmetic::div_mod::lemma_mod_bound(k, dw);
                    let dy = k / dw;
                    let dx = k % dw;
                    assert(dw * dy == dy * dw) by (nonlinear_arith);
                    assert(dy >= 0) by (nonlinear_arith)
                        requires
                            k >= 0,
                            dw > 0,
                            dy == k / dw,
                    ;
                    if k != dest_idx && dy == dest_row && dx == dest_col {
                        assert(k == dest_idx);
                    }
                }
            }
            x += 1;
        }
        proof {
            assert forall|k: int| 0 <= k < dest@.len() implies #[trigger] dest@[k] == blit_partial(
                src@,
                src_w as int,
                src_h as int,
                dest_w as int,
                dest_h as int,
                scroll_x as int,
                scroll_y as int,
                k,
                y as int + 1,
                0,
            ) by {}
        }
        y += 1;
    }
    proof {
        assert forall|i2: int| 0 <= i2 < dest@.len() implies #[trigger] dest@[i2]
            == spec_blit_pixel(
            src@,
            src_w as int,
            src_h as int,
            dest_w as int,
            dest_h as int,
            scroll_x as int,
            scroll_y as int,
            i2 % (dest_w as int),
            i2 / (dest_w as int),
        ) by {}
    }
}

/// The surface's contents midway through the copy: rows before `y` are
/// fully copied, row `y` is copied through column `x`, everything else is
/// still black. `k` is the flat surface index being described.
pub open spec fn blit_partial(
    src: Seq<u32>,
    src_w: int,
    src_h: int,
    dest_w: int,
    dest_h: int,
    scroll_x: int,
    scroll_y: int,
    k: int,
    y: int,
    x: int,
) -> u32 {
    let sdx = spec_skip_dest(scroll_x, dest_w);
    let ssx = spec_skip_src(scroll_x, src_w);
    let tx = spec_take(scroll_x, src_w, dest_w);
    let sdy = spec_skip_dest(scroll_y, dest_h);
    let ssy = spec_skip_src(scroll_y, src_h);
    let ty = spec_take(scroll_y, src_h, dest_h);
    let dx = k % dest_w;
    let dy = k / dest_w;
    if sdx <= dx < sdx + tx && sdy <= dy < sdy + ty && (dy < sdy + y || (dy == sdy + y && dx < sdx
        + x)) {
        src[(dy - sdy + ssy) * src_w + (dx - sdx + ssx)]
    } else {
        0u32
    }
}

/// The viewport's scroll offset, applied when blitting the image into
/// the surface.
#[derive(Clone, Copy, PartialEq, Eq, Structural, Debug)]
pub struct ScrollOffset {
    pub x: i32,
    pub y: i32,
}

/// One input decision that moves or resets the viewport, already reduced
/// to plain values by the window layer: arrow keys step by a fixed
/// amount, Escape and right-click reset, a middle-button drag pans by the
/// cursor's movement, and the wheel scrolls with its axes swapped while
/// the modifier key is held.
#[derive(Clone, Copy, PartialEq, Eq, Structural, Debug)]
pub enum ScrollEvent {
    /// Left arrow key pressed.
    ArrowLeft,
    /// Right arrow key pressed.
    ArrowRight,
    /// Up arrow key pressed.
    ArrowUp,
    /// Down arrow key pressed.
    ArrowDown,
    /// Escape key or right mouse button: back to the origin.
    Reset,
    /// Middle-button drag by `(dx, dy)`.
    Drag { dx: i32, dy: i32 },
    /// Mouse wheel by `(dx, dy)`; `swap` when the modifier key is held.
    Wheel { dx: i32, dy: i32, swap: bool },
}

/// The offset a scroll event leads to, in unbounded integers.
pub open spec fn spec_scroll_after(s: ScrollOffset, e: ScrollEvent) -> (int, int) {
    match e {
        ScrollEvent::ArrowLeft => (s.x - 20, s.y as int),
        ScrollEvent::ArrowRight => (s.x + 20, s.y as int),
        ScrollEvent::ArrowUp => (s.x as int, s.y - 20),
        ScrollEvent::ArrowDown => (s.x as int, s.y + 20),
        ScrollEvent::Reset => (0, 0),
        ScrollEvent::Drag { dx, dy } => (s.x + dx, s.y + dy),
        ScrollEvent::Wheel { dx, dy, swap } => (
            s.x + if swap {
                dy as int
            } else {
                dx as int
            },
            s.y + if swap {
                dx as int
            } else {
                dy as int
            },
        ),
    }
}

impl ScrollOffset {
    /// The origin: no scrolling.
    pub fn new() -> (s: ScrollOffset)
        ensures
            s.x == 0,
            s.y == 0,
    {
        ScrollOffset { x: 0, y: 0 }
    }

    /// Apply one input decision to the offset.
    pub fn apply_event(&mut self, e: ScrollEvent)
        requires
            i32::MIN <= spec_scroll_after(*old(self), e).0 <= i32::MAX,
            i32::MIN <= spec_scroll_after(*old(self), e).1 <= i32::MAX,
        ensures
            final(self).x == spec_scroll_after(*old(self), e).0,
            final(self).y == spec_scroll_after(*old(self), e).1,
    {
        match e {
            ScrollEvent::ArrowLeft => {
                self.x = self.x - 20;
            },
            ScrollEvent::ArrowRight => {
                self.x = self.x + 20;
            },
            ScrollEvent::ArrowUp => {
                self.y = self.y - 20;
            },
            ScrollEvent::ArrowDown => {
                self.y = self.y + 20;
            },
            ScrollEvent::Reset => {
                self.x = 0;
                self.y = 0;
            },
            ScrollEvent::Drag { dx, dy } => {
                self.x = self.x + dx;
                self.y = self.y + dy;
            },
            ScrollEvent::Wheel { dx, dy, swap } => {
                if swap {
                    self.x = self.x + dy;
                    self.y = self.y + dx;
                } else {
                    self.x = self.x + dx;
                    self.y = self.y + dy;
                }
            },
        }
    }
}

/// Decide whether a click at surface position `(mouse_x, mouse_y)` lands
/// inside the scrolled image: the image pixel it names, exactly when the
/// un-scrolled position lies within `width` by `height`.
pub fn hit_test(
    mouse_x: i64,
    mouse_y: i64,
    scroll: &ScrollOffset,
    width: usize,
    height: usize,
) -> (hit: Option<(usize, usize)>)
    requires
        i64::MIN <= mouse_x - scroll.x <= i64::MAX,
        i64::MIN <= mouse_y - scroll.y <= i64::MAX,
        width <= i64::MAX,
        height <= i64::MAX,
    ensures
        match hit {
            Some(p) => {
                &&& p.0 == mouse_x - scroll.x
                &&& p.1 == mouse_y - scroll.y
                &&& p.0 < width
                &&& p.1 < height
            },
            None => !(0 <= mouse_x - scroll.x < width && 0 <= mouse_y - scroll.y < height),
        },
{
    let px = mouse_x - (scroll.x as i64);
    let py = mouse_y - (scroll.y as i64);
    if px >= 0 && py >= 0 && px < width as i64 && py < height as i64 {
        Some((px as usize, py as usize))
    } else {
        None
    }
}

/// Decide whether a redraw is due: true once the elapsed time since the
/// last redraw reaches the display's refresh interval, which keeps
/// redrawing at the monitor's cadence rather than at every batch.
pub fn redraw_due(elapsed_micros: u64, refresh_millihertz: u32) -> (due: bool)
    requires
        refresh_millihertz > 0,
    ensures
        due == (elapsed_micros >= 1_000_000_000u64 / (refresh_millihertz as u64)),
{
    elapsed_micros >= 1_000_000_000u64 / (refresh_millihertz as u64)
}

/// A union of disjoint finite sets adds their sizes.
proof fn lemma_len_disjoint_union<A>(s1: Set<A>, s2: Set<A>)
    requires
        s1.finite(),
        s2.finite(),
        s1.disjoint(s2),
    ensures
        s1.union(s2).len() == s1.len() + s2.len(),
        s1.union(s2).finite(),
    decreases s2.len(),
{
    if s2.len() == 0 {
        assert(s2 =~= Set::<A>::empty());
        assert(s1.union(s2) =~= s1);
    } else {
        let a = s2.choose();
        lemma_len_disjoint_union(s1, s2.remove(a));
        assert(!s1.union(s2.remove(a)).contains(a));
        assert(s1.union(s2) =~= s1.union(s2.remove(a)).insert(a));
    }
}

} // verus!
