//! Small shared helpers: color packing, row-major index decomposition, and
//! decimal rendering of machine integers (used by the execution tracer).

use vstd::prelude::*;

verus! {

/// The packed 32-bit color word for an opaque RGB triple: `0xAARRGGBB`
/// with the alpha byte fixed at 255.
pub open spec fn spec_softbuffer_color(rgb: (u8, u8, u8)) -> u32 {
    (0xff000000u32 + rgb.0 * 0x10000 + rgb.1 * 0x100 + rgb.2) as u32
}

/// Pack an RGB triple into the 32-bit word the display surface expects:
/// alpha 255, then red, green, blue from most to least significant byte.
pub fn softbuffer_color(rgb: (u8, u8, u8)) -> (c: u32)
    ensures
        c == spec_softbuffer_color(rgb),
{
    let (r, g, b) = rgb;
    0xff000000u32 + (r as u32) * 0x10000 + (g as u32) * 0x100 + (b as u32)
}

/// Decompose a flattened pixel index into row-major coordinates:
/// `x` is the column, `y` the row, and `y * width + x` recovers the index.
pub fn xy_from_index(width: usize, index: usize) -> (xy: (usize, usize))
    requires
        width > 0,
    ensures
        xy.0 == index % width,
        xy.1 == index / width,
        xy.0 < width,
        xy.1 * width + xy.0 == index,
{
    let x = index % width;
    let y = index / width;
    proof {
        vstd::arithmetic::div_mod::lemma_fundamental_div_mod(index as int, width as int);
    }
    (x, y)
}

/// The character for one decimal digit.
pub open spec fn digit_char(d: int) -> char {
    if d == 0 {
        '0'
    } else if d == 1 {
        '1'
    } else if d == 2 {
        '2'
    } else if d == 3 {
        '3'
    } else if d == 4 {
        '4'
    } else if d == 5 {
        '5'
    } else if d == 6 {
        '6'
    } else if d == 7 {
        '7'
    } else if d == 8 {
        '8'
    } else {
        '9'
    }
}

/// The decimal rendering of a nonnegative integer, most significant digit
/// first and without leading zeros (except for zero itself).
pub open spec fn dec_str(n: int) -> Seq<char>
    decreases n,
{
    if n < 10 {
        seq![digit_char(n)]
    } else {
        dec_str(n / 10).push(digit_char(n % 10))
    }
}

fn digit_str(d: usize) -> (s: &'static str)
    requires
        d < 10,
    ensures
        s@ =~= seq![digit_char(d as int)],
{
    proof {
        reveal_strlit("0");
        reveal_strlit("1");
        reveal_strlit("2");
        reveal_strlit("3");
        reveal_strlit("4");
        reveal_strlit("5");
        reveal_strlit("6");
        reveal_strlit("7");
        reveal_strlit("8");
        reveal_strlit("9");
    }
    match d {
        0 => "0",
        1 => "1",
        2 => "2",
        3 => "3",
        4 => "4",
        5 => "5",
        6 => "6",
        7 => "7",
        8 => "8",
        _ => "9",
    }
}

/// Render a machine integer in decimal.
pub fn usize_to_string(n: usize) -> (s: String)
    ensures
        s@ == dec_str(n as int),
    decreases n,
{
    if n < 10 {
        String::from_str(digit_str(n))
    } else {
        assert(n / 10 < n && n / 10 >= 1);
        let mut s = usize_to_string(n / 10);
        s.append(digit_str(n % 10));
        assert(s@ =~= dec_str(n as int));
        s
    }
}

} // verus!
