//! Packed 32-bit pixels: viewed as little-endian bytes a pixel is `[B, G, R, A]`,
//! that is `0xAARRGGBB` as an integer.

use vstd::prelude::*;

verus! {

/// The value of a pixel with the given channels.
pub open spec fn packed(r: u8, g: u8, b: u8, a: u8) -> u32 {
    (a as int * 0x1000000 + r as int * 0x10000 + g as int * 0x100 + b as int) as u32
}

pub open spec fn blue_of(c: u32) -> u8 {
    (c as int % 0x100) as u8
}

pub open spec fn green_of(c: u32) -> u8 {
    ((c as int / 0x100) % 0x100) as u8
}

pub open spec fn red_of(c: u32) -> u8 {
    ((c as int / 0x10000) % 0x100) as u8
}

pub open spec fn alpha_of(c: u32) -> u8 {
    ((c as int / 0x1000000) % 0x100) as u8
}

#[derive(Debug, PartialEq, Eq, Clone, Copy, Structural)]
pub struct RGBAColor {
    pub r: u8,
    pub g: u8,
    pub b: u8,
    pub a: u8,
}

#[derive(Debug, PartialEq, Eq, Clone, Copy, Structural)]
pub struct RGBColor {
    pub r: u8,
    pub g: u8,
    pub b: u8,
}

/// The shifts that take a pixel apart, as divisions.
proof fn lemma_channel_shifts(c: u32)
    ensures
        (c >> 24) as u8 == alpha_of(c),
        (c >> 16) as u8 == red_of(c),
        (c >> 8) as u8 == green_of(c),
        c as u8 == blue_of(c),
{
    assert((c >> 24u32) as u8 == ((c / 0x1000000u32) % 0x100u32) as u8 && (c >> 16u32) as u8 == ((c
        / 0x10000u32) % 0x100u32) as u8 && (c >> 8u32) as u8 == ((c / 0x100u32) % 0x100u32) as u8
        && c as u8 == (c % 0x100u32) as u8) by (bit_vector);
}

/// Unpacking the channels of a packed pixel gives back each channel exactly.
pub proof fn lemma_pack_unpack(r: u8, g: u8, b: u8, a: u8)
    ensures
        red_of(packed(r, g, b, a)) == r,
        green_of(packed(r, g, b, a)) == g,
        blue_of(packed(r, g, b, a)) == b,
        alpha_of(packed(r, g, b, a)) == a,
{
    let c = packed(r, g, b, a);
    assert(0 <= (a as int * 0x1000000 + r as int * 0x10000 + g as int * 0x100 + (b as int))
        < 0x100000000);
    assert(c == a as int * 0x1000000 + r as int * 0x10000 + g as int * 0x100 + b as int);
    assert((c as int / 0x1000000) % 0x100 == a as int) by (nonlinear_arith)
        requires
            c == a as int * 0x1000000 + r as int * 0x10000 + g as int * 0x100 + b as int,
            r < 256, g < 256, b < 256, a < 256,
    {}
    assert((c as int / 0x10000) % 0x100 == r as int) by (nonlinear_arith)
        requires
            c == a as int * 0x1000000 + r as int * 0x10000 + g as int * 0x100 + b as int,
            r < 256, g < 256, b < 256, a < 256,
    {}
    assert((c as int / 0x100) % 0x100 == g as int) by (nonlinear_arith)
        requires
            c == a as int * 0x1000000 + r as int * 0x10000 + g as int * 0x100 + b as int,
            r < 256, g < 256, b < 256, a < 256,
    {}
    assert((c as int) % 0x100 == b as int) by (nonlinear_arith)
        requires
            c == a as int * 0x1000000 + r as int * 0x10000 + g as int * 0x100 + b as int,
            r < 256, g < 256, b < 256, a < 256,
    {}
}

/// Packing the four channels of a pixel gives back the pixel.
pub proof fn lemma_unpack_pack(c: u32)
    ensures
        packed(red_of(c), green_of(c), blue_of(c), alpha_of(c)) == c,
{
    let x = c as int;
    assert(x == (x / 0x1000000) % 0x100 * 0x1000000 + (x / 0x10000) % 0x100 * 0x10000
        + (x / 0x100) % 0x100 * 0x100 + x % 0x100) by (nonlinear_arith)
        requires
            0 <= x < 0x100000000,
    {}
}

/// Packs four channels into one pixel.
pub fn color(r: u8, g: u8, b: u8, a: u8) -> (c: u32)
    ensures
        c == packed(r, g, b, a),
{
    let c = (b as u32) | ((g as u32) << 8u32) | ((r as u32) << 16u32) | ((a as u32) << 24u32);
    proof {
        let (r32, g32, b32, a32) = (r as u32, g as u32, b as u32, a as u32);
        assert(r32 < 256 && g32 < 256 && b32 < 256 && a32 < 256);
        assert(r32 < 256 && g32 < 256 && b32 < 256 && a32 < 256 ==> b32 | (g32 << 8u32) | (
        r32 << 16u32) | (a32 << 24u32) == a32 * 0x1000000 + r32 * 0x10000 + g32 * 0x100 + b32)
            by (bit_vector);
    }
    c
}

pub fn get_rgba(color: u32) -> (c: RGBAColor)
    ensures
        c == (RGBAColor {
            r: red_of(color),
            g: green_of(color),
            b: blue_of(color),
            a: alpha_of(color),
        }),
{
    proof {
        lemma_channel_shifts(color);
    }
    RGBAColor {
        r: (color >> 16u32) as u8,
        g: (color >> 8u32) as u8,
        b: color as u8,
        a: (color >> 24u32) as u8,
    }
}

pub fn get_rgb(color: u32) -> (c: RGBColor)
    ensures
        c == (RGBColor { r: red_of(color), g: green_of(color), b: blue_of(color) }),
{
    proof {
        lemma_channel_shifts(color);
    }
    RGBColor { r: (color >> 16u32) as u8, g: (color >> 8u32) as u8, b: color as u8 }
}

pub fn get_alpha(color: u32) -> (a: u8)
    ensures
        a == alpha_of(color),
{
    proof {
        lemma_channel_shifts(color);
    }
    (color >> 24u32) as u8
}

/// The index of pixel `(x, y)` in a row-major frame of the given width.
pub open spec fn pixel_index(x: int, y: int, width: int) -> int {
    x + y * width
}

pub fn get_rgba_from_frame(frame: &Vec<u32>, x: usize, y: usize, width: usize) -> (c: RGBAColor)
    requires
        pixel_index(x as int, y as int, width as int) < frame@.len(),
    ensures
        c == (RGBAColor {
            r: red_of(frame@[pixel_index(x as int, y as int, width as int)]),
            g: green_of(frame@[pixel_index(x as int, y as int, width as int)]),
            b: blue_of(frame@[pixel_index(x as int, y as int, width as int)]),
            a: alpha_of(frame@[pixel_index(x as int, y as int, width as int)]),
        }),
{
    let len: usize = frame.len();
    proof {
        assert(0 <= (y as int) * (width as int)) by (nonlinear_arith);
        assert(x + y * width < len);
    }
    get_rgba(frame[x + y * width])
}

pub fn get_rgb_from_frame(frame: &Vec<u32>, x: usize, y: usize, width: usize) -> (c: RGBColor)
    requires
        pixel_index(x as int, y as int, width as int) < frame@.len(),
    ensures
        c == (RGBColor {
            r: red_of(frame@[pixel_index(x as int, y as int, width as int)]),
            g: green_of(frame@[pixel_index(x as int, y as int, width as int)]),
            b: blue_of(frame@[pixel_index(x as int, y as int, width as int)]),
        }),
{
    let len: usize = frame.len();
    proof {
        assert(0 <= (y as int) * (width as int)) by (nonlinear_arith);
        assert(x + y * width < len);
    }
    get_rgb(frame[x + y * width])
}

pub fn get_alpha_from_frame(frame: &Vec<u32>, x: usize, y: usize, width: usize) -> (a: u8)
    requires
        pixel_index(x as int, y as int, width as int) < frame@.len(),
    ensures
        a == alpha_of(frame@[pixel_index(x as int, y as int, width as int)]),
{
    let len: usize = frame.len();
    proof {
        assert(0 <= (y as int) * (width as int)) by (nonlinear_arith);
        assert(x + y * width < len);
    }
    get_alpha(frame[x + y * width])
}

/// Each pixel of `frame` as the bytes `[R, G, B, A]`, one after another.
pub fn get_rgba_vec_from_frame(frame: &Vec<u32>) -> (bytes: Vec<u8>)
    ensures
        bytes@.len() == 4 * frame@.len(),
        forall|i: int|
            0 <= i < frame@.len() ==> {
                &&& #[trigger] bytes@[4 * i] == red_of(frame@[i])
                &&& bytes@[4 * i + 1] == green_of(frame@[i])
                &&& bytes@[4 * i + 2] == blue_of(frame@[i])
                &&& bytes@[4 * i + 3] == alpha_of(frame@[i])
            },
{
    let mut result: Vec<u8> = Vec::new();
    let mut k: usize = 0;
    while k < frame.len()
        invariant
            k <= frame@.len(),
            result@.len() == 4 * k,
            forall|i: int|
                0 <= i < k ==> {
                    &&& #[trigger] result@[4 * i] == red_of(frame@[i])
                    &&& result@[4 * i + 1] == green_of(frame@[i])
                    &&& result@[4 * i + 2] == blue_of(frame@[i])
                    &&& result@[4 * i + 3] == alpha_of(frame@[i])
                },
        decreases frame@.len() - k,
    {
        let c = frame[k];
        let ghost before = result@;
        proof {
            lemma_channel_shifts(c);
        }
        result.push((c >> 16u32) as u8);
        result.push((c >> 8u32) as u8);
        result.push(c as u8);
        result.push((c >> 24u32) as u8);
        assert(forall|j: int| 0 <= j < before.len() ==> result@[j] == before[j]);
        assert(result@[4 * k] == red_of(frame@[k as int]));
        assert(result@[4 * k + 1] == green_of(frame@[k as int]));
        assert(result@[4 * k + 2] == blue_of(frame@[k as int]));
        assert(result@[4 * k + 3] == alpha_of(frame@[k as int]));
        k = k + 1;
    }
    result
}

/// Each pixel of `frame` as the bytes `[R, G, B]`, one after another.
pub fn get_rgb_vec_from_frame(frame: &Vec<u32>) -> (bytes: Vec<u8>)
    ensures
        bytes@.len() == 3 * frame@.len(),
        forall|i: int|
            0 <= i < frame@.len() ==> {
                &&& #[trigger] bytes@[3 * i] == red_of(frame@[i])
                &&& bytes@[3 * i + 1] == green_of(frame@[i])
                &&& bytes@[3 * i + 2] == blue_of(frame@[i])
            },
{
    let mut result: Vec<u8> = Vec::new();
    let mut k: usize = 0;
    while k < frame.len()
        invariant
            k <= frame@.len(),
            result@.len() == 3 * k,
            forall|i: int|
                0 <= i < k ==> {
                    &&& #[trigger] result@[3 * i] == red_of(frame@[i])
                    &&& result@[3 * i + 1] == green_of(frame@[i])
                    &&& result@[3 * i + 2] == blue_of(frame@[i])
                },
        decreases frame@.len() - k,
    {
        let c = frame[k];
        let ghost before = result@;
        proof {
            lemma_channel_shifts(c);
        }
        result.push((c >> 16u32) as u8);
        result.push((c >> 8u32) as u8);
        result.push(c as u8);
        assert(forall|j: int| 0 <= j < before.len() ==> result@[j] == before[j]);
        assert(result@[3 * k] == red_of(frame@[k as int]));
        assert(result@[3 * k + 1] == green_of(frame@[k as int]));
        assert(result@[3 * k + 2] == blue_of(frame@[k as int]));
        k = k + 1;
    }
    result
}

/// Each pixel of `frame` as its little-endian bytes `[B, G, R, A]`, one after another.
pub fn to_vec_u8_safe(frame: Vec<u32>) -> (bytes: Vec<u8>)
    ensures
        bytes@.len() == 4 * frame@.len(),
        forall|i: int|
            0 <= i < frame@.len() ==> {
                &&& #[trigger] bytes@[4 * i] == blue_of(frame@[i])
                &&& bytes@[4 * i + 1] == green_of(frame@[i])
                &&& bytes@[4 * i + 2] == red_of(frame@[i])
                &&& bytes@[4 * i + 3] == alpha_of(frame@[i])
            },
{
    let mut result: Vec<u8> = Vec::new();
    let mut k: usize = 0;
    while k < frame.len()
        invariant
            k <= frame@.len(),
            result@.len() == 4 * k,
            forall|i: int|
                0 <= i < k ==> {
                    &&& #[trigger] result@[4 * i] == blue_of(frame@[i])
                    &&& result@[4 * i + 1] == green_of(frame@[i])
                    &&& result@[4 * i + 2] == red_of(frame@[i])
                    &&& result@[4 * i + 3] == alpha_of(frame@[i])
                },
        decreases frame@.len() - k,
    {
        let c = frame[k];
        let ghost before = result@;
        proof {
            lemma_channel_shifts(c);
        }
        result.push(c as u8);
        result.push((c >> 8u32) as u8);
        result.push((c >> 16u32) as u8);
        result.push((c >> 24u32) as u8);
        assert(forall|j: int| 0 <= j < before.len() ==> result@[j] == before[j]);
        assert(result@[4 * k] == blue_of(frame@[k as int]));
        assert(result@[4 * k + 1] == green_of(frame@[k as int]));
        assert(result@[4 * k + 2] == red_of(frame@[k as int]));
        assert(result@[4 * k + 3] == alpha_of(frame@[k as int]));
        k = k + 1;
    }
    result
}

/// The frame as little-endian bytes `[B, G, R, A]` per pixel.
pub fn get_bgra_vec_from_frame(frame: Vec<u32>) -> (bytes: Vec<u8>)
    ensures
        bytes@.len() == 4 * frame@.len(),
        forall|i: int|
            0 <= i < frame@.len() ==> {
                &&& #[trigger] bytes@[4 * i] == blue_of(frame@[i])
                &&& bytes@[4 * i + 1] == green_of(frame@[i])
                &&& bytes@[4 * i + 2] == red_of(frame@[i])
                &&& bytes@[4 * i + 3] == alpha_of(frame@[i])
            },
{
    to_vec_u8_safe(frame)
}

} // verus!
