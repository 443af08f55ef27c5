use vstd::prelude::*;
use vstd::arithmetic::power2::{
    pow2, lemma_pow2_unfold, lemma_pow2_pos, lemma_pow2_strictly_increases, lemma_pow2_subtracts,
};

use crate::mips::{
    mip_box, mip_coordinates, TextureMipBox, log2_floor, lemma_log2_floor_pow2, MipLayout,
    is_mip_layout,
};

verus! {

/// A `width` x `height` grid of pixels stored row by row.
pub struct MipAtlas<P> {
    width: u32,
    height: u32,
    pixels: Vec<P>,
}

/// Row-major index of `(x, y)` in a grid `width` pixels wide.
pub open spec fn grid_index(x: int, y: int, width: int) -> int {
    y * width + x
}

pub(crate) proof fn lemma_grid_index_bounds(x: int, y: int, width: int, height: int)
    requires
        0 <= x < width,
        0 <= y < height,
    ensures
        0 <= grid_index(x, y, width) < width * height,
{
    assert(0 <= y * width + x < width * height) by (nonlinear_arith)
        requires
            0 <= x < width,
            0 <= y < height,
    ;
}

pub(crate) proof fn lemma_grid_index_distinct(x: int, y: int, x2: int, y2: int, width: int)
    requires
        0 <= x < width,
        0 <= x2 < width,
        0 <= y,
        0 <= y2,
        x != x2 || y != y2,
    ensures
        grid_index(x, y, width) != grid_index(x2, y2, width),
{
    if y == y2 {
    } else if y < y2 {
        assert(y * width + x < y2 * width + x2) by (nonlinear_arith)
            requires
                0 <= x < width,
                0 <= x2,
                y < y2,
        ;
    } else {
        assert(y2 * width + x2 < y * width + x) by (nonlinear_arith)
            requires
                0 <= x2 < width,
                0 <= x,
                y2 < y,
        ;
    }
}

/// `(x, y)` lies in the rectangle `b`.
pub open spec fn in_box(b: TextureMipBox, x: int, y: int) -> bool {
    &&& b.start_x <= x < b.start_x + b.width
    &&& b.start_y <= y < b.start_y + b.height
}

/// Index of the last mip level of a `normalized_width` x `normalized_height`
/// atlas: the first level that is one pixel wide or one pixel high.
pub open spec fn last_mip_level(normalized_width: nat, normalized_height: nat) -> nat {
    let a = log2_floor(normalized_width);
    let b = log2_floor(normalized_height);
    if a < b {
        a
    } else {
        b
    }
}

/// `(x, y)` lies in one of the rectangles of levels `from ..= to`.
pub open spec fn in_mip_levels(nw: nat, nh: nat, from: nat, to: nat, x: int, y: int) -> bool {
    exists|k: nat| from <= k <= to && #[trigger] in_box(mip_box(nw, nh, k), x, y)
}

/// The geometry of level `k` of a `2^a` x `2^b` atlas, for `1 <= k <= min(a, b)`.
proof fn lemma_level_geometry(a: nat, b: nat, k: nat)
    requires
        1 <= k <= a,
        k <= b,
        pow2(a) <= u32::MAX,
        pow2(b) <= u32::MAX,
    ensures
        mip_box(pow2(a), pow2(b), k).start_x == pow2(a),
        mip_box(pow2(a), pow2(b), k).start_y == pow2((b - k) as nat),
        mip_box(pow2(a), pow2(b), k).width == pow2((a - k) as nat),
        mip_box(pow2(a), pow2(b), k).height == pow2((b - k) as nat),
        2 * pow2((a - k) as nat) <= pow2(a),
        2 * pow2((b - k) as nat) <= pow2(b),
{
    lemma_pow2_subtracts(k, a);
    lemma_pow2_subtracts(k, b);
    lemma_pow2_unfold((a - k + 1) as nat);
    lemma_pow2_unfold((b - k + 1) as nat);
    if a - k + 1 < a {
        lemma_pow2_strictly_increases((a - k + 1) as nat, a);
    }
    if b - k + 1 < b {
        lemma_pow2_strictly_increases((b - k + 1) as nat, b);
    }
    lemma_pow2_pos((a - k) as nat);
    lemma_pow2_pos((b - k) as nat);
}

/// Facts about level 0 of a `2^a` x `2^b` atlas.
proof fn lemma_level_zero(a: nat, b: nat)
    requires
        1 <= a,
        1 <= b,
        pow2(a) <= u32::MAX,
        pow2(b) <= u32::MAX,
    ensures
        mip_box(pow2(a), pow2(b), 0) == (TextureMipBox {
            start_x: 0,
            start_y: 0,
            width: pow2(a) as u32,
            height: pow2(b) as u32,
        }),
        pow2(a) % 2 == 0,
{
    lemma_pow2_unfold(a);
}

/// Level `k - 1` is twice as wide and twice as high as level `k`.
proof fn lemma_previous_level_doubles(a: nat, b: nat, k: nat)
    requires
        1 <= a,
        1 <= b,
        pow2(a) <= u32::MAX,
        pow2(b) <= u32::MAX,
        1 <= k <= a,
        k <= b,
    ensures
        mip_box(pow2(a), pow2(b), (k - 1) as nat).width == 2 * mip_box(pow2(a), pow2(b), k).width,
        mip_box(pow2(a), pow2(b), (k - 1) as nat).height == 2 * mip_box(pow2(a), pow2(b), k).height,
        k < 32,
{
    lemma_level_geometry(a, b, k);
    lemma_level_zero(a, b);
    lemma_pow2_unfold((a - k + 1) as nat);
    lemma_pow2_unfold((b - k + 1) as nat);
    if k >= 2 {
        lemma_level_geometry(a, b, (k - 1) as nat);
    }
    vstd::arithmetic::power2::lemma2_to64();
    if a >= 32 {
        if a > 32 {
            lemma_pow2_strictly_increases(32, a);
        }
        assert(false);
    }
}

/// Rectangles of different levels do not overlap.
proof fn lemma_levels_disjoint(a: nat, b: nat, k1: nat, k2: nat, x: int, y: int)
    requires
        1 <= a,
        1 <= b,
        pow2(a) <= u32::MAX,
        pow2(b) <= u32::MAX,
        k1 < k2,
        k2 <= a,
        k2 <= b,
        in_box(mip_box(pow2(a), pow2(b), k1), x, y),
    ensures
        !in_box(mip_box(pow2(a), pow2(b), k2), x, y),
{
    lemma_level_geometry(a, b, k2);
    if k1 == 0 {
        lemma_level_zero(a, b);
    } else {
        lemma_level_geometry(a, b, k1);
        lemma_pow2_unfold((b - k2 + 1) as nat);
        if b - k2 + 1 < b - k1 {
            lemma_pow2_strictly_increases((b - k2 + 1) as nat, (b - k1) as nat);
        }
    }
}

/// Rectangles of levels `0 ..= min(a, b)` lie inside the atlas.
proof fn lemma_level_in_atlas(a: nat, b: nat, k: nat, x: int, y: int)
    requires
        1 <= a,
        1 <= b,
        pow2(a) <= u32::MAX,
        pow2(b) <= u32::MAX,
        k <= a,
        k <= b,
        in_box(mip_box(pow2(a), pow2(b), k), x, y),
    ensures
        0 <= x < pow2(a) + pow2(a) / 2,
        0 <= y < pow2(b),
{
    lemma_level_zero(a, b);
    if k >= 1 {
        lemma_level_geometry(a, b, k);
    }
}

/// The rectangles of levels `0 ..= last_mip_level` of a `normalized_width` x
/// `normalized_height` atlas (powers of two, at least 2) lie inside the atlas
/// and never overlap, so writing one level never disturbs another.
pub proof fn lemma_mip_levels_disjoint_in_atlas(
    normalized_width: nat,
    normalized_height: nat,
    k1: nat,
    k2: nat,
    x: int,
    y: int,
)
    requires
        exists|a: nat| a >= 1 && pow2(a) == normalized_width,
        exists|b: nat| b >= 1 && pow2(b) == normalized_height,
        normalized_width <= u32::MAX,
        normalized_height <= u32::MAX,
        k1 < k2 <= last_mip_level(normalized_width, normalized_height),
        in_box(mip_box(normalized_width, normalized_height, k1), x, y),
    ensures
        !in_box(mip_box(normalized_width, normalized_height, k2), x, y),
        0 <= x < normalized_width + normalized_width / 2,
        0 <= y < normalized_height,
{
    let a = choose|a: nat| a >= 1 && pow2(a) == normalized_width;
    let b = choose|b: nat| b >= 1 && pow2(b) == normalized_height;
    lemma_log2_floor_pow2(a);
    lemma_log2_floor_pow2(b);
    lemma_levels_disjoint(a, b, k1, k2, x, y);
    lemma_level_in_atlas(a, b, k1, x, y);
}

impl<P> MipAtlas<P> {
    /// `self.at` relative to the corner of the rectangle `b`.
    pub open spec fn box_at(&self, b: TextureMipBox, x: int, y: int) -> P {
        self.at(b.start_x + x, b.start_y + y)
    }

    /// Every pixel of level `level` is the top-left pixel of the matching 2x2
    /// block of level `level - 1`.
    pub open spec fn nearest_level_holds(&self, nw: nat, nh: nat, level: nat) -> bool {
        let cur = mip_box(nw, nh, level);
        let prev = mip_box(nw, nh, (level - 1) as nat);
        forall|x: int, y: int|
            0 <= x < cur.width && 0 <= y < cur.height ==> #[trigger] self.box_at(cur, x, y)
                == self.box_at(prev, 2 * x, 2 * y)
    }

    #[verifier::type_invariant]
    spec fn well_formed(self) -> bool {
        self.pixels.len() == self.width * self.height
    }

    pub closed spec fn spec_width(&self) -> nat {
        self.width as nat
    }

    pub closed spec fn spec_height(&self) -> nat {
        self.height as nat
    }

    /// The pixels, row by row.
    pub closed spec fn view(&self) -> Seq<P> {
        self.pixels@
    }

    /// The pixel at column `x`, row `y`.
    pub open spec fn at(&self, x: int, y: int) -> P {
        self.view()[grid_index(x, y, self.spec_width() as int)]
    }

    /// `(x, y)` is a pixel of the grid.
    pub open spec fn contains(&self, x: int, y: int) -> bool {
        0 <= x < self.spec_width() && 0 <= y < self.spec_height()
    }
}

impl<P: Copy> MipAtlas<P> {
    /// A grid whose every pixel is `fill`.
    pub fn new(width: u32, height: u32, fill: P) -> (atlas: Self)
        requires
            width * height <= usize::MAX,
        ensures
            atlas.spec_width() == width,
            atlas.spec_height() == height,
            forall|x: int, y: int| atlas.contains(x, y) ==> #[trigger] atlas.at(x, y) == fill,
    {
        let total: usize = width as usize * height as usize;
        let mut pixels: Vec<P> = Vec::new();
        let mut i: usize = 0;
        while i < total
            invariant
                i <= total,
                pixels.len() == i,
                forall|j: int| 0 <= j < i ==> pixels[j] == fill,
            decreases total - i,
        {
            pixels.push(fill);
            i = i + 1;
        }
        let atlas = Self { width, height, pixels };
        proof {
            assert forall|x: int, y: int| atlas.contains(x, y) implies #[trigger] atlas.at(x, y)
                == fill by {
                lemma_grid_index_bounds(x, y, width as int, height as int);
            }
        }
        atlas
    }

    pub fn width(&self) -> (w: u32)
        ensures
            w == self.spec_width(),
    {
        self.width
    }

    pub fn height(&self) -> (h: u32)
        ensures
            h == self.spec_height(),
    {
        self.height
    }

    /// The pixel at `(x, y)`.
    pub fn get_pixel(&self, x: u32, y: u32) -> (p: P)
        requires
            self.contains(x as int, y as int),
        ensures
            p == self.at(x as int, y as int),
    {
        proof {
            use_type_invariant(self);
            lemma_grid_index_bounds(x as int, y as int, self.width as int, self.height as int);
        }
        self.pixels[y as usize * self.width as usize + x as usize]
    }

    /// Overwrites the pixel at `(x, y)` with `p`; every other pixel keeps its value.
    pub fn put_pixel(&mut self, x: u32, y: u32, p: P)
        requires
            old(self).contains(x as int, y as int),
        ensures
            final(self).spec_width() == old(self).spec_width(),
            final(self).spec_height() == old(self).spec_height(),
            forall|x2: int, y2: int|
                old(self).contains(x2, y2) ==> #[trigger] final(self).at(x2, y2) == if x2 == x
                    && y2 == y {
                    p
                } else {
                    old(self).at(x2, y2)
                },
    {
        proof {
            use_type_invariant(&*self);
            lemma_grid_index_bounds(x as int, y as int, self.width as int, self.height as int);
        }
        let mut taken = Self { width: 0, height: 0, pixels: Vec::new() };
        std::mem::swap(&mut taken, self);
        proof {
            use_type_invariant(&taken);
        }
        let Self { width, height, mut pixels } = taken;
        let index: usize = y as usize * width as usize + x as usize;
        pixels.set(index, p);
        *self = Self { width, height, pixels };
        proof {
            assert forall|x2: int, y2: int| old(self).contains(x2, y2) implies #[trigger] self.at(
                x2,
                y2,
            ) == if x2 == x && y2 == y {
                p
            } else {
                old(self).at(x2, y2)
            } by {
                lemma_grid_index_bounds(x2, y2, width as int, height as int);
                if x2 != x || y2 != y {
                    lemma_grid_index_distinct(x as int, y as int, x2, y2, width as int);
                }
            }
        }
    }

    /// Copies a row-major `input_width` x `input_height` image to the top-left
    /// corner; every other pixel keeps its value.
    pub fn copy_base(&mut self, input: &Vec<P>, input_width: u32, input_height: u32)
        requires
            input_width <= old(self).spec_width(),
            input_height <= old(self).spec_height(),
            input.len() == input_width * input_height,
        ensures
            final(self).spec_width() == old(self).spec_width(),
            final(self).spec_height() == old(self).spec_height(),
            forall|x: int, y: int|
                old(self).contains(x, y) ==> #[trigger] final(self).at(x, y) == if x < input_width
                    && y < input_height {
                    input[grid_index(x, y, input_width as int)]
                } else {
                    old(self).at(x, y)
                },
    {
        let ghost start = *self;
        let mut y: u32 = 0;
        while y < input_height
            invariant
                y <= input_height <= self.spec_height(),
                input_width <= self.spec_width(),
                input.len() == input_width * input_height,
                self.spec_width() == start.spec_width(),
                self.spec_height() == start.spec_height(),
                forall|x2: int, y2: int|
                    start.contains(x2, y2) ==> #[trigger] self.at(x2, y2) == if x2 < input_width
                        && y2 < y {
                        input[grid_index(x2, y2, input_width as int)]
                    } else {
                        start.at(x2, y2)
                    },
            decreases input_height - y,
        {
            let mut x: u32 = 0;
            while x < input_width
                invariant
                    y < input_height <= self.spec_height(),
                    x <= input_width <= self.spec_width(),
                    input.len() == input_width * input_height,
                    self.spec_width() == start.spec_width(),
                    self.spec_height() == start.spec_height(),
                    forall|x2: int, y2: int|
                        start.contains(x2, y2) ==> #[trigger] self.at(x2, y2) == if x2
                            < input_width && (y2 < y || (y2 == y && x2 < x)) {
                            input[grid_index(x2, y2, input_width as int)]
                        } else {
                            start.at(x2, y2)
                        },
                decreases input_width - x,
            {
                proof {
                    lemma_grid_index_bounds(
                        x as int,
                        y as int,
                        input_width as int,
                        input_height as int,
                    );
                }
                let p = input[y as usize * input_width as usize + x as usize];
                self.put_pixel(x, y, p);
                x = x + 1;
            }
            y = y + 1;
        }
    }

    /// Writes levels `level ..= last_mip_level` of a `2^a` x `2^b` atlas, each
    /// pixel taking the top-left pixel of its 2x2 block in the level before.
    fn generate_levels(
        &mut self,
        nw: u32,
        nh: u32,
        level: u32,
        previous: TextureMipBox,
        Ghost(a): Ghost<nat>,
        Ghost(b): Ghost<nat>,
    )
        requires
            1 <= a,
            1 <= b,
            nw == pow2(a),
            nh == pow2(b),
            1 <= level <= a,
            level <= b,
            previous == mip_box(nw as nat, nh as nat, (level - 1) as nat),
            old(self).spec_width() == nw + nw / 2,
            old(self).spec_height() == nh,
        ensures
            final(self).spec_width() == old(self).spec_width(),
            final(self).spec_height() == old(self).spec_height(),
            forall|k: nat|
                level <= k <= (if a < b { a } else { b }) ==> #[trigger] final(self).nearest_level_holds(nw as nat, nh as nat, k),
            forall|x: int, y: int|
                old(self).contains(x, y) && !in_mip_levels(
                    nw as nat,
                    nh as nat,
                    level as nat,
                    (if a < b { a } else { b }),
                    x,
                    y,
                ) ==> #[trigger] final(self).at(x, y) == old(self).at(x, y),
        decreases (if a < b { a } else { b }) - level,
    {
        let ghost last: nat = if a < b { a } else { b };
        let ghost start = *self;
        let ghost k = level as nat;
        proof {
            lemma_level_geometry(a, b, k);
            lemma_level_zero(a, b);
            lemma_previous_level_doubles(a, b, k);
            if k >= 2 {
                lemma_level_geometry(a, b, (k - 1) as nat);
            }
        }
        let coordinates = mip_coordinates(nw, nh, level);
        let ghost cb = coordinates;
        let ghost pb = previous;
        let mut x_index: u32 = 0;
        while x_index < coordinates.width
            invariant
                1 <= a,
                1 <= b,
                nw == pow2(a),
                nh == pow2(b),
                1 <= k <= a,
                k <= b,
                k == level,
                cb == coordinates,
                pb == previous,
                cb == mip_box(nw as nat, nh as nat, k),
                pb == mip_box(nw as nat, nh as nat, (k - 1) as nat),
                x_index <= cb.width,
                self.spec_width() == start.spec_width(),
                self.spec_height() == start.spec_height(),
                start.spec_width() == nw + nw / 2,
                start.spec_height() == nh,
                forall|x2: int, y2: int|
                    start.contains(x2, y2) ==> #[trigger] self.at(x2, y2) == if in_box(
                        cb,
                        x2,
                        y2,
                    ) && x2 - cb.start_x < x_index {
                        start.at(pb.start_x + 2 * (x2 - cb.start_x), pb.start_y + 2 * (y2 - cb.start_y))
                    } else {
                        start.at(x2, y2)
                    },
            decreases cb.width - x_index,
        {
            let mut y_index: u32 = 0;
            while y_index < coordinates.height
                invariant
                    1 <= a,
                    1 <= b,
                    nw == pow2(a),
                    nh == pow2(b),
                    1 <= k <= a,
                    k <= b,
                    k == level,
                    cb == coordinates,
                    pb == previous,
                    cb == mip_box(nw as nat, nh as nat, k),
                    pb == mip_box(nw as nat, nh as nat, (k - 1) as nat),
                    x_index < cb.width,
                    y_index <= cb.height,
                    self.spec_width() == start.spec_width(),
                    self.spec_height() == start.spec_height(),
                    start.spec_width() == nw + nw / 2,
                    start.spec_height() == nh,
                    forall|x2: int, y2: int|
                        start.contains(x2, y2) ==> #[trigger] self.at(x2, y2) == if in_box(
                            cb,
                            x2,
                            y2,
                        ) && (x2 - cb.start_x < x_index || (x2 - cb.start_x == x_index && y2
                            - cb.start_y < y_index)) {
                            start.at(
                                pb.start_x + 2 * (x2 - cb.start_x),
                                pb.start_y + 2 * (y2 - cb.start_y),
                            )
                        } else {
                            start.at(x2, y2)
                        },
                decreases cb.height - y_index,
            {
                let ghost sx: int = pb.start_x + 2 * x_index;
                let ghost sy: int = pb.start_y + 2 * y_index;
                let ghost tx: int = cb.start_x + x_index;
                let ghost ty: int = cb.start_y + y_index;
                proof {
                    lemma_level_geometry(a, b, k);
                    lemma_level_zero(a, b);
                    lemma_previous_level_doubles(a, b, k);
                    if k >= 2 {
                        lemma_level_geometry(a, b, (k - 1) as nat);
                    }
                    assert(in_box(pb, sx, sy));
                    assert(in_box(cb, tx, ty));
                    lemma_level_in_atlas(a, b, (k - 1) as nat, sx, sy);
                    lemma_level_in_atlas(a, b, k, tx, ty);
                    lemma_levels_disjoint(a, b, (k - 1) as nat, k, sx, sy);
                }
                let p00 = self.get_pixel(
                    previous.start_x + x_index * 2,
                    previous.start_y + y_index * 2,
                );
                self.put_pixel(coordinates.start_x + x_index, coordinates.start_y + y_index, p00);
                y_index = y_index + 1;
            }
            x_index = x_index + 1;
        }
        let ghost mid = *self;
        proof {
            assert forall|x: int, y: int|
                0 <= x < cb.width && 0 <= y < cb.height implies #[trigger] mid.box_at(cb, x, y)
                == mid.box_at(pb, 2 * x, 2 * y) by {
                lemma_level_geometry(a, b, k);
                lemma_level_zero(a, b);
                lemma_previous_level_doubles(a, b, k);
                if k >= 2 {
                    lemma_level_geometry(a, b, (k - 1) as nat);
                }
                assert(in_box(cb, cb.start_x + x, cb.start_y + y));
                assert(in_box(pb, pb.start_x + 2 * x, pb.start_y + 2 * y));
                lemma_level_in_atlas(a, b, k, cb.start_x + x, cb.start_y + y);
                lemma_level_in_atlas(a, b, (k - 1) as nat, pb.start_x + 2 * x, pb.start_y + 2 * y);
                lemma_levels_disjoint(a, b, (k - 1) as nat, k, pb.start_x + 2 * x, pb.start_y + 2 * y);
            }
            assert(mid.nearest_level_holds(nw as nat, nh as nat, k));
        }
        if coordinates.width != 1 && coordinates.height != 1 {
            proof {
                lemma_pow2_pos((a - k) as nat);
                lemma_pow2_pos((b - k) as nat);
                if k == a {
                    assert(pow2(0) == 1) by {
                        vstd::arithmetic::power2::lemma2_to64();
                    }
                }
                if k == b {
                    assert(pow2(0) == 1) by {
                        vstd::arithmetic::power2::lemma2_to64();
                    }
                }
            }
            self.generate_levels(nw, nh, level + 1, coordinates, Ghost(a), Ghost(b));
            proof {
                let fin = *self;
                // level k itself is untouched by the finer levels
                assert forall|x: int, y: int|
                    0 <= x < cb.width && 0 <= y < cb.height implies #[trigger] fin.box_at(cb, x, y)
                    == fin.box_at(pb, 2 * x, 2 * y) by {
                    let tx = cb.start_x + x;
                    let ty = cb.start_y + y;
                    let sx = pb.start_x + 2 * x;
                    let sy = pb.start_y + 2 * y;
                    lemma_previous_level_doubles(a, b, k);
                    assert(in_box(cb, tx, ty));
                    assert(in_box(pb, sx, sy));
                    lemma_level_in_atlas(a, b, k, tx, ty);
                    lemma_level_in_atlas(a, b, (k - 1) as nat, sx, sy);
                    assert(mid.box_at(cb, x, y) == mid.box_at(pb, 2 * x, 2 * y));
                    if in_mip_levels(nw as nat, nh as nat, k + 1, last, tx, ty) {
                        let j = choose|j: nat| k + 1 <= j <= last && #[trigger] in_box(
                            mip_box(nw as nat, nh as nat, j),
                            tx,
                            ty,
                        );
                        lemma_levels_disjoint(a, b, k, j, tx, ty);
                    }
                    if in_mip_levels(nw as nat, nh as nat, k + 1, last, sx, sy) {
                        let j = choose|j: nat| k + 1 <= j <= last && #[trigger] in_box(
                            mip_box(nw as nat, nh as nat, j),
                            sx,
                            sy,
                        );
                        lemma_levels_disjoint(a, b, (k - 1) as nat, j, sx, sy);
                    }
                    assert(fin.at(tx, ty) == mid.at(tx, ty));
                    assert(fin.at(sx, sy) == mid.at(sx, sy));
                }
                assert(fin.nearest_level_holds(nw as nat, nh as nat, k));
                assert forall|x: int, y: int|
                    start.contains(x, y) && !in_mip_levels(
                        nw as nat,
                        nh as nat,
                        k,
                        last,
                        x,
                        y,
                    ) implies #[trigger] fin.at(x, y) == start.at(x, y) by {
                    if in_box(cb, x, y) {
                        assert(in_mip_levels(nw as nat, nh as nat, k, last, x, y));
                    }
                    if in_mip_levels(nw as nat, nh as nat, k + 1, last, x, y) {
                        let j = choose|j: nat| k + 1 <= j <= last && #[trigger] in_box(
                            mip_box(nw as nat, nh as nat, j),
                            x,
                            y,
                        );
                        assert(in_mip_levels(nw as nat, nh as nat, k, last, x, y));
                    }
                }
            }
        } else {
            proof {
                lemma_pow2_pos((a - k) as nat);
                lemma_pow2_pos((b - k) as nat);
                if k < a && k < b {
                    lemma_pow2_strictly_increases(0, (a - k) as nat);
                    lemma_pow2_strictly_increases(0, (b - k) as nat);
                    assert(pow2(0) == 1) by {
                        vstd::arithmetic::power2::lemma2_to64();
                    }
                    assert(false);
                }
                assert(k == last);
                assert forall|x: int, y: int|
                    start.contains(x, y) && !in_mip_levels(
                        nw as nat,
                        nh as nat,
                        k,
                        last,
                        x,
                        y,
                    ) implies #[trigger] mid.at(x, y) == start.at(x, y) by {
                    if in_box(cb, x, y) {
                        assert(in_mip_levels(nw as nat, nh as nat, k, last, x, y));
                    }
                }
            }
        }
    }

    /// Fills every finer mip level of a `normalized_width` x `normalized_height`
    /// atlas (powers of two, at least 2) from level 0 by point sampling: each
    /// pixel takes the top-left pixel of its 2x2 block in the level before.
    /// Levels are written until one is a single pixel wide or high; no other
    /// pixel changes.
    pub fn generate_nearest_mips(&mut self, normalized_width: u32, normalized_height: u32)
        requires
            exists|a: nat| a >= 1 && pow2(a) == normalized_width,
            exists|b: nat| b >= 1 && pow2(b) == normalized_height,
            old(self).spec_width() == normalized_width + normalized_width / 2,
            old(self).spec_height() == normalized_height,
        ensures
            final(self).spec_width() == old(self).spec_width(),
            final(self).spec_height() == old(self).spec_height(),
            forall|k: nat|
                1 <= k <= last_mip_level(normalized_width as nat, normalized_height as nat)
                    ==> #[trigger] final(self).nearest_level_holds(normalized_width as nat, normalized_height as nat, k),
            forall|x: int, y: int|
                old(self).contains(x, y) && !in_mip_levels(
                    normalized_width as nat,
                    normalized_height as nat,
                    1,
                    last_mip_level(normalized_width as nat, normalized_height as nat),
                    x,
                    y,
                ) ==> #[trigger] final(self).at(x, y) == old(self).at(x, y),
    {
        let ghost a = choose|a: nat| a >= 1 && pow2(a) == normalized_width;
        let ghost b = choose|b: nat| b >= 1 && pow2(b) == normalized_height;
        proof {
            lemma_log2_floor_pow2(a);
            lemma_log2_floor_pow2(b);
        }
        let base = mip_coordinates(normalized_width, normalized_height, 0);
        self.generate_levels(normalized_width, normalized_height, 1, base, Ghost(a), Ghost(b));
    }

    /// The mip atlas of a row-major `layout.input_width` x `layout.input_height`
    /// image for the filters that point-sample: the image at the top-left
    /// corner, every finer level generated by `generate_nearest_mips`, and
    /// `fill` everywhere else.
    pub fn generate_point_sampled_mips(input: &Vec<P>, layout: MipLayout, fill: P) -> (atlas: Self)
        requires
            is_mip_layout(layout),
            input.len() == layout.input_width * layout.input_height,
            layout.texture_width * layout.texture_height <= usize::MAX,
        ensures
            atlas.spec_width() == layout.texture_width,
            atlas.spec_height() == layout.texture_height,
            forall|x: int, y: int|
                0 <= x < layout.input_width && 0 <= y < layout.input_height ==> #[trigger] atlas.at(x, y)
                    == input[grid_index(x, y, layout.input_width as int)],
            forall|x: int, y: int|
                atlas.contains(x, y) && !(0 <= x < layout.input_width && 0 <= y
                    < layout.input_height) && !in_mip_levels(
                    layout.normalized_width as nat,
                    layout.normalized_height as nat,
                    1,
                    last_mip_level(layout.normalized_width as nat, layout.normalized_height as nat),
                    x,
                    y,
                ) ==> #[trigger] atlas.at(x, y) == fill,
            forall|k: nat|
                1 <= k <= last_mip_level(layout.normalized_width as nat, layout.normalized_height as nat)
                    ==> #[trigger] atlas.nearest_level_holds(layout.normalized_width as nat, layout.normalized_height as nat, k),
    {
        let mut atlas = Self::new(layout.texture_width, layout.texture_height, fill);
        atlas.copy_base(input, layout.input_width, layout.input_height);
        let ghost copied = atlas;
        atlas.generate_nearest_mips(layout.normalized_width, layout.normalized_height);
        proof {
            let nw = layout.normalized_width as nat;
            let nh = layout.normalized_height as nat;
            let a = choose|a: nat| a >= 1 && pow2(a) == nw;
            let b = choose|b: nat| b >= 1 && pow2(b) == nh;
            lemma_log2_floor_pow2(a);
            lemma_log2_floor_pow2(b);
            assert forall|x: int, y: int|
                0 <= x < layout.input_width && 0 <= y < layout.input_height implies #[trigger] atlas.at(x, y)
                    == input[grid_index(x, y, layout.input_width as int)] by {
                if in_mip_levels(nw, nh, 1, last_mip_level(nw, nh), x, y) {
                    let j = choose|j: nat| 1 <= j <= last_mip_level(nw, nh) && #[trigger] in_box(
                        mip_box(nw, nh, j),
                        x,
                        y,
                    );
                    lemma_level_geometry(a, b, j);
                }
                assert(copied.contains(x, y));
            }
        }
        atlas
    }
}

} // verus!
