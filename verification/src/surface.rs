use vstd::prelude::*;

use crate::mip_atlas::{grid_index, lemma_grid_index_bounds, lemma_grid_index_distinct};

verus! {

/// The 32-bit pixel that holds red, green and blue in its three low bytes,
/// in that order, and an opaque alpha in its high byte.
pub open spec fn packed_pixel(red: u8, green: u8, blue: u8) -> u32 {
    (red + 0x100 * green + 0x1_0000 * blue + 0xFF00_0000) as u32
}

/// Packs an opaque color into one 32-bit pixel.
pub fn pack_pixel(red: u8, green: u8, blue: u8) -> (data: u32)
    ensures
        data == packed_pixel(red, green, blue),
{
    let r = red as u32;
    let g = green as u32;
    let b = blue as u32;
    assert(r | (g << 8) | (b << 16) | (0xFFu32 << 24) == r + 0x100 * g + 0x1_0000 * b
        + 0xFF00_0000) by (bit_vector)
        requires
            r < 256,
            g < 256,
            b < 256,
    ;
    r | (g << 8) | (b << 16) | (0xFFu32 << 24)
}

/// The frame being rendered: `render_size` logical pixels, each shown as a
/// `render_scale` x `render_scale` block of the surface, with the surface's
/// rows stored bottom-up relative to the logical rows.
pub struct TotallySafeSurfaceWrapper {
    memory: Vec<u32>,
    render_size: (u32, u32),
    render_scale: u32,
    surface_size: (u32, u32),
}

impl TotallySafeSurfaceWrapper {
    #[verifier::type_invariant]
    spec fn well_formed(self) -> bool {
        &&& self.surface_size.0 == self.render_size.0 * self.render_scale
        &&& self.surface_size.1 == self.render_size.1 * self.render_scale
        &&& self.memory.len() == self.surface_size.0 * self.surface_size.1
    }

    pub closed spec fn spec_render_size(&self) -> (u32, u32) {
        self.render_size
    }

    pub closed spec fn spec_scale(&self) -> u32 {
        self.render_scale
    }

    pub closed spec fn spec_surface_size(&self) -> (u32, u32) {
        self.surface_size
    }

    /// The surface pixels, row by row.
    pub closed spec fn view(&self) -> Seq<u32> {
        self.memory@
    }

    /// The surface pixel at column `x`, row `y`.
    pub open spec fn at(&self, x: int, y: int) -> u32 {
        self.view()[grid_index(x, y, self.spec_surface_size().0 as int)]
    }

    /// `(x, y)` is a pixel of the surface.
    pub open spec fn contains(&self, x: int, y: int) -> bool {
        0 <= x < self.spec_surface_size().0 && 0 <= y < self.spec_surface_size().1
    }

    /// The surface pixel `(x, y)` shows the logical pixel `position`.
    pub open spec fn shows(&self, position: (u32, u32), x: int, y: int) -> bool {
        let s = self.spec_scale() as int;
        let flipped = self.spec_surface_size().1 - 1 - y;
        &&& position.0 * s <= x < position.0 * s + s
        &&& position.1 * s <= flipped < position.1 * s + s
    }

    /// A surface of `render_size` logical pixels shown at `render_scale`, all zero.
    pub fn new(render_size: (u32, u32), render_scale: u32) -> (s: Self)
        requires
            render_size.0 * render_scale <= u32::MAX,
            render_size.1 * render_scale <= u32::MAX,
            (render_size.0 * render_scale) * (render_size.1 * render_scale) <= usize::MAX,
        ensures
            s.spec_render_size() == render_size,
            s.spec_scale() == render_scale,
            s.spec_surface_size() == (
                (render_size.0 * render_scale) as u32,
                (render_size.1 * render_scale) as u32,
            ),
            forall|x: int, y: int| s.contains(x, y) ==> #[trigger] s.at(x, y) == 0,
    {
        let surface_size = (render_size.0 * render_scale, render_size.1 * render_scale);
        let total: usize = surface_size.0 as usize * surface_size.1 as usize;
        let mut memory: Vec<u32> = Vec::new();
        let mut i: usize = 0;
        while i < total
            invariant
                i <= total,
                memory.len() == i,
                forall|j: int| 0 <= j < i ==> memory[j] == 0,
            decreases total - i,
        {
            memory.push(0);
            i = i + 1;
        }
        let s = Self { memory, render_size, render_scale, surface_size };
        proof {
            assert forall|x: int, y: int| s.contains(x, y) implies #[trigger] s.at(x, y) == 0 by {
                lemma_grid_index_bounds(x, y, surface_size.0 as int, surface_size.1 as int);
            }
        }
        s
    }

    fn set_surface_pixel(&mut self, x: u32, y: u32, data: u32)
        requires
            old(self).contains(x as int, y as int),
        ensures
            final(self).spec_render_size() == old(self).spec_render_size(),
            final(self).spec_scale() == old(self).spec_scale(),
            final(self).spec_surface_size() == old(self).spec_surface_size(),
            forall|x2: int, y2: int|
                old(self).contains(x2, y2) ==> #[trigger] final(self).at(x2, y2) == if x2 == x
                    && y2 == y {
                    data
                } else {
                    old(self).at(x2, y2)
                },
    {
        proof {
            use_type_invariant(&*self);
            lemma_grid_index_bounds(
                x as int,
                y as int,
                self.surface_size.0 as int,
                self.surface_size.1 as int,
            );
        }
        let mut taken = Self {
            memory: Vec::new(),
            render_size: (0, 0),
            render_scale: 0,
            surface_size: (0, 0),
        };
        std::mem::swap(&mut taken, self);
        proof {
            use_type_invariant(&taken);
        }
        let Self { mut memory, render_size, render_scale, surface_size } = taken;
        memory.set(y as usize * surface_size.0 as usize + x as usize, data);
        *self = Self { memory, render_size, render_scale, surface_size };
        proof {
            assert forall|x2: int, y2: int| old(self).contains(x2, y2) implies #[trigger] self.at(
                x2,
                y2,
            ) == if x2 == x && y2 == y {
                data
            } else {
                old(self).at(x2, y2)
            } by {
                lemma_grid_index_bounds(x2, y2, surface_size.0 as int, surface_size.1 as int);
                if x2 != x || y2 != y {
                    lemma_grid_index_distinct(x as int, y as int, x2, y2, surface_size.0 as int);
                }
            }
        }
    }

    /// Shows the logical pixel `unscaled_position` in the given color: every
    /// surface pixel of its block gets the packed color, and no other pixel changes.
    pub fn write(&mut self, unscaled_position: (u32, u32), red: u8, green: u8, blue: u8)
        requires
            unscaled_position.0 < old(self).spec_render_size().0,
            unscaled_position.1 < old(self).spec_render_size().1,
        ensures
            final(self).spec_render_size() == old(self).spec_render_size(),
            final(self).spec_scale() == old(self).spec_scale(),
            final(self).spec_surface_size() == old(self).spec_surface_size(),
            forall|x: int, y: int|
                old(self).contains(x, y) ==> #[trigger] final(self).at(x, y) == if old(self).shows(
                    unscaled_position,
                    x,
                    y,
                ) {
                    packed_pixel(red, green, blue)
                } else {
                    old(self).at(x, y)
                },
    {
        proof {
            use_type_invariant(&*self);
        }
        let data = pack_pixel(red, green, blue);
        let ghost start = *self;
        let render_scale = self.render_scale;
        let surface_size = self.surface_size;
        let ghost s = render_scale as int;
        let ghost px = unscaled_position.0 as int;
        let ghost py = unscaled_position.1 as int;
        proof {
            assert(px * s + s <= self.render_size.0 * s) by (nonlinear_arith)
                requires
                    px < self.render_size.0,
                    s >= 0,
            ;
            assert(py * s + s <= self.render_size.1 * s) by (nonlinear_arith)
                requires
                    py < self.render_size.1,
                    s >= 0,
            ;
            assert(0 <= px * s) by (nonlinear_arith)
                requires
                    px >= 0,
                    s >= 0,
            ;
            assert(0 <= py * s) by (nonlinear_arith)
                requires
                    py >= 0,
                    s >= 0,
            ;
        }
        let scaled_position = (
            unscaled_position.0 * render_scale,
            unscaled_position.1 * render_scale,
        );
        let mut i: u32 = 0;
        while i < render_scale
            invariant
                i <= render_scale,
                render_scale == start.spec_scale(),
                surface_size == start.spec_surface_size(),
                px == unscaled_position.0,
                py == unscaled_position.1,
                scaled_position.0 == px * s,
                scaled_position.1 == py * s,
                s == render_scale,
                px * s + s <= surface_size.0,
                py * s + s <= surface_size.1,
                self.spec_render_size() == start.spec_render_size(),
                self.spec_scale() == start.spec_scale(),
                self.spec_surface_size() == start.spec_surface_size(),
                forall|x: int, y: int|
                    start.contains(x, y) ==> #[trigger] self.at(x, y) == if start.shows(
                        unscaled_position,
                        x,
                        y,
                    ) && x < px * s + i {
                        data
                    } else {
                        start.at(x, y)
                    },
            decreases render_scale - i,
        {
            let mut j: u32 = 0;
            while j < render_scale
                invariant
                    i < render_scale,
                    j <= render_scale,
                    render_scale == start.spec_scale(),
                    surface_size == start.spec_surface_size(),
                    px == unscaled_position.0,
                    py == unscaled_position.1,
                    scaled_position.0 == px * s,
                    scaled_position.1 == py * s,
                    s == render_scale,
                    px * s + s <= surface_size.0,
                    py * s + s <= surface_size.1,
                    self.spec_render_size() == start.spec_render_size(),
                    self.spec_scale() == start.spec_scale(),
                    self.spec_surface_size() == start.spec_surface_size(),
                    forall|x: int, y: int|
                        start.contains(x, y) ==> #[trigger] self.at(x, y) == if start.shows(
                            unscaled_position,
                            x,
                            y,
                        ) && (x < px * s + i || (x == px * s + i && surface_size.1 - 1 - y
                            < py * s + j)) {
                            data
                        } else {
                            start.at(x, y)
                        },
                decreases render_scale - j,
            {
                let y = surface_size.1 - (scaled_position.1 + j) - 1;
                let x = scaled_position.0 + i;
                self.set_surface_pixel(x, y, data);
                j = j + 1;
            }
            i = i + 1;
        }
    }

    pub fn width(&self) -> (w: u32)
        ensures
            w == self.spec_render_size().0,
    {
        self.render_size.0
    }

    pub fn height(&self) -> (h: u32)
        ensures
            h == self.spec_render_size().1,
    {
        self.render_size.1
    }

    pub fn scale(&self) -> (s: u32)
        ensures
            s == self.spec_scale(),
    {
        self.render_scale
    }

    /// The surface pixels, row by row.
    pub fn get(&self) -> (memory: &Vec<u32>)
        ensures
            memory@ == self.view(),
    {
        &self.memory
    }

    /// Number of surface pixels.
    pub fn size_pixels(&self) -> (n: usize)
        ensures
            n == self.spec_render_size().0 * self.spec_render_size().1 * self.spec_scale()
                * self.spec_scale(),
            n == self.view().len(),
    {
        proof {
            use_type_invariant(self);
            let w = self.render_size.0 as int;
            let h = self.render_size.1 as int;
            let s = self.render_scale as int;
            assert((w * s) * (h * s) == w * h * s * s) by (nonlinear_arith);
        }
        self.memory.len()
    }
}

} // verus!
