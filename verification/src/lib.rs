use vstd::prelude::*;

pub mod shuffle;
pub mod workload;
pub mod render_thread;
pub mod unresizable_array;
pub mod mips;
pub mod mip_atlas;
pub mod surface;
pub mod packed_texture;
pub mod uri;
pub mod gltf_data;
pub mod octant;
pub mod material_storage;

verus! {

} // verus!
