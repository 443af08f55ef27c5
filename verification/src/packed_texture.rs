use vstd::prelude::*;

use crate::mip_atlas::{grid_index, lemma_grid_index_bounds, lemma_grid_index_distinct};
use crate::surface::packed_pixel;

verus! {

/// Red, green and blue: the three low bytes of a packed pixel, low byte first.
pub open spec fn unpacked_rgb(packed: u32) -> (u8, u8, u8) {
    ((packed % 0x100) as u8, ((packed / 0x100) % 0x100) as u8, ((packed / 0x1_0000) % 0x100) as u8)
}

/// Splits a packed pixel into its red, green and blue bytes.
pub fn unpack_rgb(packed: u32) -> (rgb: (u8, u8, u8))
    ensures
        rgb == unpacked_rgb(packed),
{
    let r = (packed >> 0) & 0x0000_00FF;
    let g = (packed >> 8) & 0x0000_00FF;
    let b = (packed >> 16) & 0x0000_00FF;
    assert(r == packed % 0x100 && g == (packed / 0x100) % 0x100 && b == (packed / 0x1_0000)
        % 0x100) by (bit_vector)
        requires
            r == (packed >> 0) & 0x0000_00FF,
            g == (packed >> 8) & 0x0000_00FF,
            b == (packed >> 16) & 0x0000_00FF,
    ;
    (r as u8, g as u8, b as u8)
}

/// Unpacking a packed pixel gives back the color that was packed.
pub proof fn lemma_unpack_after_pack(red: u8, green: u8, blue: u8)
    ensures
        unpacked_rgb(packed_pixel(red, green, blue)) == (red, green, blue),
{
    let p = packed_pixel(red, green, blue);
    let v: int = red + 0x100 * green + 0x1_0000 * blue + 0xFF00_0000;
    assert(p == v);
    assert(v % 0x100 == red) by (nonlinear_arith)
        requires
            v == red + 0x100 * green + 0x1_0000 * blue + 0xFF00_0000,
            0 <= red < 0x100,
            0 <= green < 0x100,
            0 <= blue < 0x100,
    ;
    assert((v / 0x100) % 0x100 == green) by (nonlinear_arith)
        requires
            v == red + 0x100 * green + 0x1_0000 * blue + 0xFF00_0000,
            0 <= red < 0x100,
            0 <= green < 0x100,
            0 <= blue < 0x100,
    ;
    assert((v / 0x1_0000) % 0x100 == blue) by (nonlinear_arith)
        requires
            v == red + 0x100 * green + 0x1_0000 * blue + 0xFF00_0000,
            0 <= red < 0x100,
            0 <= green < 0x100,
            0 <= blue < 0x100,
    ;
}

/// A texture of packed pixels.
pub struct Texture {
    width: usize,
    height: usize,
    data: Vec<u32>,
}

/// The color of square `(i, j)` of the checkerboard.
pub open spec fn checker_color(i: int, j: int) -> u32 {
    if (i + j) % 2 == 0 {
        0xCCCC_CCCC
    } else {
        0x1111_1111
    }
}

/// Neighbouring squares of the checkerboard, along a row or along a column,
/// have different colors, and square `(0, 0)` is the light one.
pub proof fn lemma_checker_neighbours_differ(i: int, j: int)
    ensures
        checker_color(i, j) != checker_color(i + 1, j),
        checker_color(i, j) != checker_color(i, j + 1),
        checker_color(0, 0) == 0xCCCC_CCCCu32,
        checker_color(i, j) == 0xCCCC_CCCCu32 || checker_color(i, j) == 0x1111_1111u32,
{
}

impl Texture {
    pub closed spec fn spec_width(&self) -> nat {
        self.width as nat
    }

    pub closed spec fn spec_height(&self) -> nat {
        self.height as nat
    }

    /// The stored pixels.
    pub closed spec fn view(&self) -> Seq<u32> {
        self.data@
    }

    pub fn new(width: usize, height: usize, data: Vec<u32>) -> (t: Self)
        ensures
            t.spec_width() == width,
            t.spec_height() == height,
            t.view() == data@,
    {
        Self { width, height, data }
    }

    /// The slot read for texel `(x, y)`: `y * height + x`, clamped to the last
    /// of the `width * height` slots.
    pub open spec fn spec_texel_index(&self, x: int, y: int) -> int {
        let raw = y * self.spec_height() + x;
        let last = self.spec_width() * self.spec_height() - 1;
        if raw <= last {
            raw
        } else {
            last
        }
    }

    pub fn texel_index(&self, x: usize, y: usize) -> (index: usize)
        requires
            y * self.spec_height() + x <= usize::MAX,
            1 <= self.spec_width() * self.spec_height() <= usize::MAX,
        ensures
            index == self.spec_texel_index(x as int, y as int),
    {
        let index = y * self.height + x;
        let last = self.width * self.height - 1;
        if index <= last {
            index
        } else {
            last
        }
    }

    /// The packed pixel read for texel `(x, y)`.
    pub fn texel(&self, x: usize, y: usize) -> (packed: u32)
        requires
            y * self.spec_height() + x <= usize::MAX,
            1 <= self.spec_width() * self.spec_height() <= usize::MAX,
            self.view().len() >= self.spec_width() * self.spec_height(),
        ensures
            packed == self.view()[self.spec_texel_index(x as int, y as int)],
    {
        let index = self.texel_index(x, y);
        self.data[index]
    }
}

/// A 400 x 200 checkerboard of one-pixel squares, stored row by row.
pub fn make_checkerboard_texture() -> (t: Texture)
    ensures
        t.spec_width() == 400,
        t.spec_height() == 200,
        t.view().len() == 400 * 200,
        forall|i: int, j: int|
            0 <= i < 200 && 0 <= j < 400 ==> #[trigger] t.view()[grid_index(j, i, 400)]
                == checker_color(i, j),
        forall|i: int, j: int|
            0 <= i < 200 && 0 <= j < 400 ==> #[trigger] t.view()[i * 400 + j] == if (i + j) % 2
                == 0 {
                0xCCCC_CCCCu32
            } else {
                0x1111_1111u32
            },
        forall|i: int, j: int|
            0 <= i < 199 && 0 <= j < 400 ==> #[trigger] t.view()[i * 400 + j] != t.view()[(i + 1)
                * 400 + j],
        forall|i: int, j: int|
            0 <= i < 200 && 0 <= j < 399 ==> #[trigger] t.view()[i * 400 + j] != t.view()[i * 400
                + j + 1],
{
    let width: usize = 400;
    let height: usize = 200;
    let mut data: Vec<u32> = Vec::new();
    let mut k: usize = 0;
    while k < width * height
        invariant
            width == 400,
            height == 200,
            k <= width * height,
            data.len() == k,
        decreases width * height - k,
    {
        data.push(0);
        k = k + 1;
    }
    let mut i: usize = 0;
    while i < height
        invariant
            width == 400,
            height == 200,
            i <= height,
            data.len() == width * height,
            forall|i2: int, j2: int|
                0 <= i2 < i && 0 <= j2 < 400 ==> #[trigger] data@[grid_index(j2, i2, 400)]
                    == checker_color(i2, j2),
        decreases height - i,
    {
        let mut j: usize = 0;
        while j < width
            invariant
                width == 400,
                height == 200,
                i < height,
                j <= width,
                data.len() == width * height,
                forall|i2: int, j2: int|
                    0 <= i2 < 200 && 0 <= j2 < 400 && (i2 < i || (i2 == i && j2 < j))
                        ==> #[trigger] data@[grid_index(j2, i2, 400)] == checker_color(i2, j2),
            decreases width - j,
        {
            proof {
                lemma_grid_index_bounds(j as int, i as int, 400, 200);
                assert forall|i2: int, j2: int|
                    0 <= i2 < 200 && 0 <= j2 < 400 && (i2 != i || j2 != j) implies grid_index(
                        j2,
                        i2,
                        400,
                    ) != grid_index(j as int, i as int, 400) by {
                    lemma_grid_index_distinct(j as int, i as int, j2, i2, 400);
                }
            }
            if (i + j) % 2 == 0 {
                data.set(i * width + j, 0xCCCC_CCCC);
            } else {
                data.set(i * width + j, 0x1111_1111);
            }
            j = j + 1;
        }
        i = i + 1;
    }
    let t = Texture::new(width, height, data);
    proof {
        assert forall|i: int, j: int| 0 <= i < 200 && 0 <= j < 400 implies #[trigger] t.view()[i
            * 400 + j] == if (i + j) % 2 == 0 {
            0xCCCC_CCCCu32
        } else {
            0x1111_1111u32
        } by {
            assert(grid_index(j, i, 400) == i * 400 + j);
        }
        assert forall|i: int, j: int| 0 <= i < 199 && 0 <= j < 400 implies #[trigger] t.view()[i
            * 400 + j] != t.view()[(i + 1) * 400 + j] by {
            assert(grid_index(j, i, 400) == i * 400 + j);
            assert(grid_index(j, i + 1, 400) == (i + 1) * 400 + j);
            lemma_checker_neighbours_differ(i, j);
        }
        assert forall|i: int, j: int| 0 <= i < 200 && 0 <= j < 399 implies #[trigger] t.view()[i
            * 400 + j] != t.view()[i * 400 + j + 1] by {
            assert(grid_index(j, i, 400) == i * 400 + j);
            assert(grid_index(j + 1, i, 400) == i * 400 + j + 1);
            lemma_checker_neighbours_differ(i, j);
        }
    }
    t
}

} // verus!
