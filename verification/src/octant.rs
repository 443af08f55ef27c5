use vstd::prelude::*;

verus! {

/// On which side of each of a node's three splitting planes a point lies
/// (`true`: the positive side).
#[derive(Clone, Copy, Debug, PartialEq, Eq, Structural)]
pub struct OctantSides {
    pub x: bool,
    pub y: bool,
    pub z: bool,
}

/// The child slot of the octant on the given sides: bit 0 is the x side,
/// bit 1 the y side, bit 2 the z side.
pub open spec fn octant_slot(side: OctantSides) -> int {
    (if side.z { 4int } else { 0int }) + (if side.y { 2int } else { 0int }) + (if side.x {
        1int
    } else {
        0int
    })
}

/// The child slot of the octant a point on the given sides falls in.
pub fn side_to_index(side: &OctantSides) -> (index: usize)
    ensures
        index == octant_slot(*side),
        index < 8,
{
    let z: usize = if side.z { 4 } else { 0 };
    let y: usize = if side.y { 2 } else { 0 };
    let x: usize = if side.x { 1 } else { 0 };
    assert(z | y | x == z + y + x) by (bit_vector)
        requires
            z == 0 || z == 4,
            y == 0 || y == 2,
            x == 0 || x == 1,
    ;
    z | y | x
}

/// Every child slot belongs to exactly one octant, and crossing one splitting
/// plane moves to the slot that differs in that plane's bit only.
pub proof fn lemma_octant_slots(a: OctantSides, b: OctantSides)
    ensures
        0 <= octant_slot(a) < 8,
        octant_slot(a) == octant_slot(b) ==> a == b,
        octant_slot(a) % 2 == (if a.x { 1int } else { 0int }),
        (octant_slot(a) / 2) % 2 == (if a.y { 1int } else { 0int }),
        octant_slot(a) / 4 == (if a.z { 1int } else { 0int }),
{
}

} // verus!
