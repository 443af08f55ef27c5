use raytracer::packed_texture::{make_checkerboard_texture, unpack_rgb, Texture};
use raytracer::surface::{pack_pixel, TotallySafeSurfaceWrapper};

#[test]
fn pack_pixel_puts_red_in_low_byte() {
    assert_eq!(pack_pixel(1, 2, 3), 0xFF03_0201);
    assert_eq!(pack_pixel(255, 255, 255), 0xFFFF_FFFF);
    assert_eq!(pack_pixel(0, 0, 0), 0xFF00_0000);
}

#[test]
fn unpack_reverses_pack() {
    assert_eq!(unpack_rgb(pack_pixel(224, 185, 144)), (224, 185, 144));
    assert_eq!(unpack_rgb(0x1234_5678), (0x78, 0x56, 0x34));
}

#[test]
fn surface_new_is_blank() {
    let s = TotallySafeSurfaceWrapper::new((3, 2), 2);
    assert_eq!(s.width(), 3);
    assert_eq!(s.height(), 2);
    assert_eq!(s.scale(), 2);
    assert_eq!(s.size_pixels(), 24);
    assert!(s.get().iter().all(|&p| p == 0));
}

#[test]
fn surface_write_fills_flipped_block() {
    let mut s = TotallySafeSurfaceWrapper::new((2, 2), 2);
    s.write((1, 0), 10, 20, 30);
    let data = pack_pixel(10, 20, 30);
    let memory = s.get();
    // surface is 4 x 4; logical row 0 is shown in surface rows 3 and 2
    for y in 0..4u32 {
        for x in 0..4u32 {
            let expected = if x >= 2 && y >= 2 { data } else { 0 };
            assert_eq!(memory[(y * 4 + x) as usize], expected, "pixel {} {}", x, y);
        }
    }
}

#[test]
fn surface_write_scale_one() {
    let mut s = TotallySafeSurfaceWrapper::new((3, 2), 1);
    s.write((2, 1), 1, 1, 1);
    let memory = s.get();
    assert_eq!(memory[2], pack_pixel(1, 1, 1));
    assert_eq!(memory.iter().filter(|&&p| p != 0).count(), 1);
}

#[test]
fn checkerboard_alternates() {
    let t = make_checkerboard_texture();
    assert_eq!(t.texel(0, 0), 0xCCCC_CCCC);
    assert_eq!(t.texel(1, 0), 0x1111_1111);
    assert_eq!(t.texel_index(0, 1), 200);
}

#[test]
fn texel_index_clamps_to_last_slot() {
    let t = Texture::new(3, 2, vec![1, 2, 3, 4, 5, 6]);
    assert_eq!(t.texel_index(0, 1), 2);
    assert_eq!(t.texel(0, 1), 3);
    assert_eq!(t.texel(2, 1), 5);
    assert_eq!(t.texel_index(7, 9), 5);
    assert_eq!(t.texel(7, 9), 6);
}
