use vstd::prelude::*;

verus! {

/// The immediate operand of a 4-lane shuffle that picks lane `x` for the first
/// result lane, `y` for the second, `z` for the third and `w` for the fourth.
pub open spec fn shuffle_mask(x: int, y: int, z: int, w: int) -> int {
    x + 4 * y + 16 * z + 64 * w
}

/// Packs four lane selectors, two bits each, into a shuffle immediate: `x` in
/// bits 0-1, `y` in bits 2-3, `z` in bits 4-5 and `w` in bits 6-7. Selectors
/// outside `0..4` are or-ed in unmasked, as the shifts leave them.
#[allow(non_snake_case)]
pub fn MakeShuffleMask(x: i32, y: i32, z: i32, w: i32) -> (mask: i32)
    ensures
        mask == x | (y << 2) | (z << 4) | (w << 6),
        (0 <= x < 4 && 0 <= y < 4 && 0 <= z < 4 && 0 <= w < 4) ==> mask == shuffle_mask(
            x as int,
            y as int,
            z as int,
            w as int,
        ) && 0 <= mask < 256,
{
    let mask = x | (y << 2) | (z << 4) | (w << 6);
    assert((0 <= x < 4 && 0 <= y < 4 && 0 <= z < 4 && 0 <= w < 4) ==> mask == x + 4 * y + 16 * z
        + 64 * w) by (bit_vector)
        requires
            mask == x | (y << 2) | (z << 4) | (w << 6),
    ;
    mask
}

/// The selectors come back out of a shuffle immediate: lane `i` of the result
/// is read from bits `2i .. 2i + 2`.
pub proof fn lemma_shuffle_mask_decodes(x: int, y: int, z: int, w: int)
    requires
        0 <= x < 4,
        0 <= y < 4,
        0 <= z < 4,
        0 <= w < 4,
    ensures
        shuffle_mask(x, y, z, w) % 4 == x,
        (shuffle_mask(x, y, z, w) / 4) % 4 == y,
        (shuffle_mask(x, y, z, w) / 16) % 4 == z,
        shuffle_mask(x, y, z, w) / 64 == w,
{
    let m = shuffle_mask(x, y, z, w);
    assert(m % 4 == x && (m / 4) % 4 == y && (m / 16) % 4 == z && m / 64 == w) by (nonlinear_arith)
        requires
            m == x + 4 * y + 16 * z + 64 * w,
            0 <= x < 4,
            0 <= y < 4,
            0 <= z < 4,
            0 <= w < 4,
    ;
}

} // verus!
