use vstd::prelude::*;

use crate::unresizable_array::UnresizableArray;

verus! {

/// Fixed-capacity storage of a scene's materials and textures. Stored items
/// never move, so the slot returned by a push names the item for the life of
/// the storage.
pub struct MaterialStorageSized<M, X, const MATERIALS_MAX: usize, const TEXTURES_MAX: usize> {
    materials: UnresizableArray<M, MATERIALS_MAX>,
    textures: UnresizableArray<X, TEXTURES_MAX>,
}

impl<M, X, const MATERIALS_MAX: usize, const TEXTURES_MAX: usize> MaterialStorageSized<
    M,
    X,
    MATERIALS_MAX,
    TEXTURES_MAX,
> {
    pub closed spec fn materials(&self) -> Seq<M> {
        self.materials.view()
    }

    pub closed spec fn textures(&self) -> Seq<X> {
        self.textures.view()
    }

    /// Empty storage.
    pub fn new() -> (s: Self)
        ensures
            s.materials() == Seq::<M>::empty(),
            s.textures() == Seq::<X>::empty(),
    {
        Self {
            materials: UnresizableArray::with_capacity(),
            textures: UnresizableArray::with_capacity(),
        }
    }

    /// Stores a material; returns its slot.
    pub fn push_material(&mut self, mat: M) -> (slot: usize)
        requires
            old(self).materials().len() < MATERIALS_MAX,
        ensures
            slot == old(self).materials().len(),
            final(self).materials() == old(self).materials().push(mat),
            final(self).textures() == old(self).textures(),
    {
        self.materials.push(mat)
    }

    /// Stores a texture; returns its slot.
    pub fn push_texture(&mut self, tex: X) -> (slot: usize)
        requires
            old(self).textures().len() < TEXTURES_MAX,
        ensures
            slot == old(self).textures().len(),
            final(self).textures() == old(self).textures().push(tex),
            final(self).materials() == old(self).materials(),
    {
        self.textures.push(tex)
    }

    /// The material in slot `slot`.
    pub fn material(&self, slot: usize) -> (mat: &M)
        requires
            slot < self.materials().len(),
        ensures
            *mat == self.materials()[slot as int],
    {
        self.materials.get_unchecked(slot)
    }

    /// The texture in slot `slot`.
    pub fn texture(&self, slot: usize) -> (tex: &X)
        requires
            slot < self.textures().len(),
        ensures
            *tex == self.textures()[slot as int],
    {
        self.textures.get_unchecked(slot)
    }

    /// Number of stored materials.
    pub fn material_count(&self) -> (n: usize)
        ensures
            n == self.materials().len(),
    {
        self.materials.len()
    }

    /// Number of stored textures.
    pub fn texture_count(&self) -> (n: usize)
        ensures
            n == self.textures().len(),
    {
        self.textures.len()
    }
}

} // verus!
