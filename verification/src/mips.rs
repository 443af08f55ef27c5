use vstd::prelude::*;
use vstd::arithmetic::power2::{
    pow2, lemma_pow2_unfold, lemma_pow2_pos, lemma_pow2_strictly_increases, lemma2_to64,
    lemma_pow2_subtracts, lemma_pow2_adds,
};

verus! {

/// Minification filter of a texture sampler.
#[derive(Clone, Copy, Debug, PartialEq, Eq, Structural)]
pub enum MinFilter {
    /// Corresponds to `GL_NEAREST`.
    Nearest,
    /// Corresponds to `GL_LINEAR`.
    Linear,
    /// Corresponds to `GL_NEAREST_MIPMAP_NEAREST`.
    NearestMipmapNearest,
    /// Corresponds to `GL_LINEAR_MIPMAP_NEAREST`.
    LinearMipmapNearest,
    /// Corresponds to `GL_NEAREST_MIPMAP_LINEAR`.
    NearestMipmapLinear,
    /// Corresponds to `GL_LINEAR_MIPMAP_LINEAR`.
    LinearMipmapLinear,
}

/// Magnification filter of a texture sampler.
#[derive(Clone, Copy, Debug, PartialEq, Eq, Structural)]
pub enum MagFilter {
    /// Corresponds to `GL_NEAREST`.
    Nearest,
    /// Corresponds to `GL_LINEAR`.
    Linear,
}

pub const GL_NEAREST: u32 = 9728;

pub const GL_LINEAR: u32 = 9729;

pub const GL_NEAREST_MIPMAP_NEAREST: u32 = 9984;

pub const GL_LINEAR_MIPMAP_NEAREST: u32 = 9985;

pub const GL_NEAREST_MIPMAP_LINEAR: u32 = 9986;

pub const GL_LINEAR_MIPMAP_LINEAR: u32 = 9987;

impl MinFilter {
    /// The OpenGL enumerant that names this filter.
    pub open spec fn gl_code(self) -> u32 {
        match self {
            MinFilter::Nearest => GL_NEAREST,
            MinFilter::Linear => GL_LINEAR,
            MinFilter::NearestMipmapNearest => GL_NEAREST_MIPMAP_NEAREST,
            MinFilter::LinearMipmapNearest => GL_LINEAR_MIPMAP_NEAREST,
            MinFilter::NearestMipmapLinear => GL_NEAREST_MIPMAP_LINEAR,
            MinFilter::LinearMipmapLinear => GL_LINEAR_MIPMAP_LINEAR,
        }
    }

    /// The filter that an OpenGL enumerant names, if it names one.
    pub fn from_gl_enum(code: u32) -> (f: Option<MinFilter>)
        ensures
            match f {
                Some(filter) => filter.gl_code() == code,
                None => forall|filter: MinFilter| filter.gl_code() != code,
            },
    {
        if code == GL_NEAREST {
            Some(MinFilter::Nearest)
        } else if code == GL_LINEAR {
            Some(MinFilter::Linear)
        } else if code == GL_NEAREST_MIPMAP_NEAREST {
            Some(MinFilter::NearestMipmapNearest)
        } else if code == GL_LINEAR_MIPMAP_NEAREST {
            Some(MinFilter::LinearMipmapNearest)
        } else if code == GL_NEAREST_MIPMAP_LINEAR {
            Some(MinFilter::NearestMipmapLinear)
        } else if code == GL_LINEAR_MIPMAP_LINEAR {
            Some(MinFilter::LinearMipmapLinear)
        } else {
            proof {
                assert forall|filter: MinFilter| filter.gl_code() != code by {
                    match filter {
                        MinFilter::Nearest => {},
                        MinFilter::Linear => {},
                        MinFilter::NearestMipmapNearest => {},
                        MinFilter::LinearMipmapNearest => {},
                        MinFilter::NearestMipmapLinear => {},
                        MinFilter::LinearMipmapLinear => {},
                    }
                }
            }
            None
        }
    }

    /// Whether the mip chain for this filter averages each 2x2 block of the
    /// finer level; every other filter takes the block's first pixel.
    pub fn averages_mip_blocks(&self) -> (b: bool)
        ensures
            b <==> (*self == MinFilter::LinearMipmapLinear || *self
                == MinFilter::LinearMipmapNearest),
    {
        match self {
            MinFilter::LinearMipmapLinear | MinFilter::LinearMipmapNearest => true,
            _ => false,
        }
    }
}

/// Distinct minification filters have distinct enumerants, so reading back
/// the enumerant of a filter gives that filter.
pub proof fn lemma_min_filter_codes_distinct(f1: MinFilter, f2: MinFilter)
    ensures
        f1.gl_code() == f2.gl_code() ==> f1 == f2,
{
}

/// Distinct magnification filters have distinct enumerants.
pub proof fn lemma_mag_filter_codes_distinct(f1: MagFilter, f2: MagFilter)
    ensures
        f1.gl_code() == f2.gl_code() ==> f1 == f2,
{
}

impl MagFilter {
    /// The OpenGL enumerant that names this filter.
    pub open spec fn gl_code(self) -> u32 {
        match self {
            MagFilter::Nearest => GL_NEAREST,
            MagFilter::Linear => GL_LINEAR,
        }
    }

    /// The filter that an OpenGL enumerant names, if it names one.
    pub fn from_gl_enum(code: u32) -> (f: Option<MagFilter>)
        ensures
            match f {
                Some(filter) => filter.gl_code() == code,
                None => forall|filter: MagFilter| filter.gl_code() != code,
            },
    {
        if code == GL_NEAREST {
            Some(MagFilter::Nearest)
        } else if code == GL_LINEAR {
            Some(MagFilter::Linear)
        } else {
            proof {
                assert forall|filter: MagFilter| filter.gl_code() != code by {
                    match filter {
                        MagFilter::Nearest => {},
                        MagFilter::Linear => {},
                    }
                }
            }
            None
        }
    }
}

/// 2 raised to `exp`.
pub fn power_of_two(exp: u32) -> (p: u32)
    requires
        exp < 32,
    ensures
        p == pow2(exp as nat),
{
    proof {
        lemma2_to64();
    }
    let mut p: u32 = 1;
    let mut i: u32 = 0;
    while i < exp
        invariant
            i <= exp < 32,
            p == pow2(i as nat),
        decreases exp - i,
    {
        proof {
            lemma2_to64();
            lemma_pow2_unfold((i + 1) as nat);
            if i + 1 < 32 {
                lemma_pow2_strictly_increases((i + 1) as nat, 32);
            }
        }
        p = p * 2;
        i = i + 1;
    }
    p
}

/// The exponent of the largest power of two not above `n` (0 for `n <= 1`).
pub open spec fn log2_floor(n: nat) -> nat
    decreases n,
{
    if n <= 1 {
        0
    } else {
        1 + log2_floor(n / 2)
    }
}

/// `log2_floor` of a power of two is its exponent.
pub proof fn lemma_log2_floor_pow2(k: nat)
    ensures
        log2_floor(pow2(k)) == k,
    decreases k,
{
    if k == 0 {
        assert(pow2(0) == 1) by {
            lemma2_to64();
        }
    } else {
        lemma_pow2_unfold(k);
        lemma_pow2_pos((k - 1) as nat);
        lemma_log2_floor_pow2((k - 1) as nat);
        assert(pow2(k) / 2 == pow2((k - 1) as nat));
    }
}

/// The exponent of a power of two, computed by halving.
pub fn exact_log2(n: u32) -> (k: u32)
    requires
        exists|e: nat| pow2(e) == n,
    ensures
        pow2(k as nat) == n,
        k == log2_floor(n as nat),
        k < 32,
{
    let ghost e = choose|e: nat| pow2(e) == n;
    proof {
        lemma2_to64();
        lemma_log2_floor_pow2(e);
        if e >= 32 {
            if e > 32 {
                lemma_pow2_strictly_increases(32, e);
            }
            assert(false);
        }
    }
    let mut m: u32 = n;
    let mut k: u32 = 0;
    while m > 1
        invariant
            e < 32,
            pow2(e) == n,
            k <= e,
            m == pow2((e - k) as nat),
        decreases m,
    {
        proof {
            if k == e {
                assert(pow2(0) == 1) by {
                    lemma2_to64();
                }
                assert(false);
            }
            lemma_pow2_unfold((e - k) as nat);
            lemma_pow2_pos((e - k - 1) as nat);
        }
        m = m / 2;
        k = k + 1;
    }
    proof {
        lemma_pow2_pos((e - k) as nat);
        if k < e {
            lemma_pow2_strictly_increases(0, (e - k) as nat);
            assert(pow2(0) == 1) by {
                lemma2_to64();
            }
            assert(false);
        }
    }
    k
}

/// `r` is the smallest power of two that is at least `value` (and at least 1).
pub open spec fn is_ceil_power_of_two(value: nat, r: nat) -> bool {
    &&& exists|k: nat| pow2(k) == r
    &&& r >= value
    &&& (r == 1 || r / 2 < value)
}

/// The smallest power of two that is at least `value`; 1 for `value == 0`.
pub fn ceil_to_power_of_2(value: u32) -> (r: u32)
    requires
        value <= 0x8000_0000,
    ensures
        is_ceil_power_of_two(value as nat, r as nat),
        r <= 0x8000_0000,
{
    proof {
        lemma2_to64();
    }
    let mut r: u32 = 1;
    let ghost mut k: nat = 0;
    while r < value
        invariant
            value <= 0x8000_0000,
            r == pow2(k),
            r <= 0x8000_0000,
            r == 1 || r / 2 < value,
        decreases 0x8000_0000 - r,
    {
        proof {
            lemma2_to64();
            // a power of two below 2^31 is at most 2^30, so doubling stays within 2^31
            if k >= 31 {
                if k > 31 {
                    lemma_pow2_strictly_increases(31, k);
                }
                assert(false);
            }
            if k + 1 < 31 {
                lemma_pow2_strictly_increases(k + 1, 31);
            }
            lemma_pow2_unfold(k + 1);
        }
        r = r * 2;
        proof {
            k = k + 1;
        }
    }
    r
}

/// A rectangle of the mip atlas: where one mip level is stored.
#[derive(Clone, Copy, Debug, PartialEq, Eq, Structural)]
pub struct TextureMipBox {
    pub start_x: u32,
    pub start_y: u32,
    pub width: u32,
    pub height: u32,
}

/// Where mip level `level` of a `normalized_width` x `normalized_height` texture
/// is stored: level 0 at the origin at full size, every finer level `k >= 1` in
/// the column right of level 0, starting at row `normalized_height / 2^k`, at
/// `1 / 2^k` of the full size.
pub open spec fn mip_box(normalized_width: nat, normalized_height: nat, level: nat) -> TextureMipBox {
    if level == 0 {
        TextureMipBox {
            start_x: 0,
            start_y: 0,
            width: normalized_width as u32,
            height: normalized_height as u32,
        }
    } else {
        TextureMipBox {
            start_x: normalized_width as u32,
            start_y: (normalized_height / pow2(level)) as u32,
            width: (normalized_width / pow2(level)) as u32,
            height: (normalized_height / pow2(level)) as u32,
        }
    }
}

/// The rectangle that holds mip level `mip_level`.
pub fn mip_coordinates(normalized_width: u32, normalized_height: u32, mip_level: u32) -> (b:
    TextureMipBox)
    requires
        mip_level < 32,
    ensures
        b == mip_box(normalized_width as nat, normalized_height as nat, mip_level as nat),
{
    if mip_level == 0 {
        return TextureMipBox {
            start_x: 0,
            start_y: 0,
            width: normalized_width,
            height: normalized_height,
        };
    }
    let scale = power_of_two(mip_level);
    proof {
        lemma_pow2_pos(mip_level as nat);
    }
    let start_x = normalized_width;
    let start_y = normalized_height / scale;
    let width = normalized_width / scale;
    let height = normalized_height / scale;
    TextureMipBox { start_x, start_y, width, height }
}

/// The sizes that a texture of `input_width` x `input_height` pixels gets in
/// the mip atlas.
#[derive(Clone, Copy, Debug, PartialEq, Eq, Structural)]
pub struct MipLayout {
    pub input_width: u32,
    pub input_height: u32,
    /// The width of level 0: the next power of two, and at least 2.
    pub normalized_width: u32,
    /// The height of level 0: the next power of two, and at least 2.
    pub normalized_height: u32,
    /// The atlas holds level 0 and, to its right, a column half as wide for the finer levels.
    pub texture_width: u32,
    pub texture_height: u32,
    /// Number of levels that are sampled: at most 16, and no more than the
    /// exponent of the normalized width.
    pub max_mip: u32,
}

/// The extent of level 0 along a side of `input` pixels.
pub open spec fn normalized_extent(input: nat, r: nat) -> bool {
    &&& exists|k: nat| k >= 1 && pow2(k) == r
    &&& r >= input
    &&& (r == 2 || r / 2 < input)
}

/// `l` is the layout that `mip_layout` gives its input size.
pub open spec fn is_mip_layout(l: MipLayout) -> bool {
    &&& normalized_extent(l.input_width as nat, l.normalized_width as nat)
    &&& normalized_extent(l.input_height as nat, l.normalized_height as nat)
    &&& l.normalized_width <= 0x8000_0000
    &&& l.normalized_height <= 0x8000_0000
    &&& l.texture_width == l.normalized_width + l.normalized_width / 2
    &&& l.texture_height == l.normalized_height
    &&& l.max_mip == if log2_floor(l.normalized_width as nat) < 16 {
        log2_floor(l.normalized_width as nat)
    } else {
        16
    }
}

/// The layout of the mip atlas of an `input_width` x `input_height` texture.
pub fn mip_layout(input_width: u32, input_height: u32) -> (l: MipLayout)
    requires
        input_width <= 0x8000_0000,
        input_height <= 0x8000_0000,
    ensures
        l.input_width == input_width,
        l.input_height == input_height,
        is_mip_layout(l),
        normalized_extent(input_width as nat, l.normalized_width as nat),
        normalized_extent(input_height as nat, l.normalized_height as nat),
        l.normalized_width <= 0x8000_0000,
        l.normalized_height <= 0x8000_0000,
        l.texture_width == l.normalized_width + l.normalized_width / 2,
        l.texture_height == l.normalized_height,
        l.max_mip == if log2_floor(l.normalized_width as nat) < 16 {
            log2_floor(l.normalized_width as nat)
        } else {
            16
        },
{
    let nw = normalized_side(input_width);
    let nh = normalized_side(input_height);
    let log_w = exact_log2(nw);
    let max_mip = if log_w < 16 {
        log_w
    } else {
        16
    };
    MipLayout {
        input_width,
        input_height,
        normalized_width: nw,
        normalized_height: nh,
        texture_width: nw + nw / 2,
        texture_height: nh,
        max_mip,
    }
}

fn normalized_side(input: u32) -> (r: u32)
    requires
        input <= 0x8000_0000,
    ensures
        normalized_extent(input as nat, r as nat),
        r <= 0x8000_0000,
{
    let c = ceil_to_power_of_2(input);
    proof {
        lemma2_to64();
    }
    if c < 2 {
        proof {
            assert(pow2(1) == 2);
        }
        2
    } else {
        proof {
            let k = choose|k: nat| pow2(k) == c;
            if k == 0 {
                assert(false);
            }
        }
        c
    }
}

} // verus!
