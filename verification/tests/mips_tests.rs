use raytracer::mip_atlas::MipAtlas;
use raytracer::mips::{
    ceil_to_power_of_2, exact_log2, mip_coordinates, mip_layout, power_of_two, MagFilter,
    MinFilter,
};

#[test]
fn ceil_to_power_of_two_values() {
    assert_eq!(ceil_to_power_of_2(0), 1);
    assert_eq!(ceil_to_power_of_2(1), 1);
    assert_eq!(ceil_to_power_of_2(2), 2);
    assert_eq!(ceil_to_power_of_2(3), 4);
    assert_eq!(ceil_to_power_of_2(5), 8);
    assert_eq!(ceil_to_power_of_2(1024), 1024);
    assert_eq!(ceil_to_power_of_2(1025), 2048);
    assert_eq!(ceil_to_power_of_2(0x8000_0000), 0x8000_0000);
}

#[test]
fn powers_and_logs() {
    assert_eq!(power_of_two(0), 1);
    assert_eq!(power_of_two(10), 1024);
    assert_eq!(power_of_two(31), 0x8000_0000);
    assert_eq!(exact_log2(1), 0);
    assert_eq!(exact_log2(8), 3);
    assert_eq!(exact_log2(0x8000_0000), 31);
}

#[test]
fn mip_boxes_of_square_texture() {
    let b = mip_coordinates(8, 8, 0);
    assert_eq!((b.start_x, b.start_y, b.width, b.height), (0, 0, 8, 8));
    let b = mip_coordinates(8, 8, 1);
    assert_eq!((b.start_x, b.start_y, b.width, b.height), (8, 4, 4, 4));
    let b = mip_coordinates(8, 8, 2);
    assert_eq!((b.start_x, b.start_y, b.width, b.height), (8, 2, 2, 2));
    let b = mip_coordinates(8, 8, 3);
    assert_eq!((b.start_x, b.start_y, b.width, b.height), (8, 1, 1, 1));
}

#[test]
fn mip_layout_rounds_up_to_powers_of_two() {
    let l = mip_layout(3, 5);
    assert_eq!((l.normalized_width, l.normalized_height), (4, 8));
    assert_eq!((l.texture_width, l.texture_height), (6, 8));
    assert_eq!(l.max_mip, 2);
    let l = mip_layout(1, 1);
    assert_eq!((l.normalized_width, l.normalized_height), (2, 2));
    assert_eq!((l.texture_width, l.texture_height), (3, 2));
    assert_eq!(l.max_mip, 1);
    let l = mip_layout(1 << 20, 4);
    assert_eq!(l.max_mip, 16);
}

#[test]
fn filters_from_gl_enums() {
    assert!(MinFilter::from_gl_enum(9728) == Some(MinFilter::Nearest));
    assert!(MinFilter::from_gl_enum(9729) == Some(MinFilter::Linear));
    assert!(MinFilter::from_gl_enum(9984) == Some(MinFilter::NearestMipmapNearest));
    assert!(MinFilter::from_gl_enum(9985) == Some(MinFilter::LinearMipmapNearest));
    assert!(MinFilter::from_gl_enum(9986) == Some(MinFilter::NearestMipmapLinear));
    assert!(MinFilter::from_gl_enum(9987) == Some(MinFilter::LinearMipmapLinear));
    assert!(MinFilter::from_gl_enum(1234) == None);
    assert!(MagFilter::from_gl_enum(9728) == Some(MagFilter::Nearest));
    assert!(MagFilter::from_gl_enum(9729) == Some(MagFilter::Linear));
    assert!(MagFilter::from_gl_enum(9984) == None);
}

#[test]
fn only_linear_mipmap_filters_average() {
    assert!(MinFilter::LinearMipmapLinear.averages_mip_blocks());
    assert!(MinFilter::LinearMipmapNearest.averages_mip_blocks());
    assert!(!MinFilter::Linear.averages_mip_blocks());
    assert!(!MinFilter::Nearest.averages_mip_blocks());
    assert!(!MinFilter::NearestMipmapLinear.averages_mip_blocks());
}

#[test]
fn atlas_pixels_round_trip() {
    let mut a: MipAtlas<u32> = MipAtlas::new(3, 2, 7);
    assert_eq!(a.get_pixel(2, 1), 7);
    a.put_pixel(2, 1, 9);
    assert_eq!(a.get_pixel(2, 1), 9);
    assert_eq!(a.get_pixel(1, 1), 7);
    assert_eq!((a.width(), a.height()), (3, 2));
}

#[test]
fn nearest_mips_of_four_by_four() {
    let input: Vec<u32> = (0..16).collect();
    let layout = mip_layout(4, 4);
    let atlas = MipAtlas::generate_point_sampled_mips(&input, layout, 99);
    assert_eq!((atlas.width(), atlas.height()), (6, 4));
    for y in 0..4 {
        for x in 0..4 {
            assert_eq!(atlas.get_pixel(x, y), y * 4 + x);
        }
    }
    // level 1: 2 x 2 at (4, 2)
    assert_eq!(atlas.get_pixel(4, 2), 0);
    assert_eq!(atlas.get_pixel(5, 2), 2);
    assert_eq!(atlas.get_pixel(4, 3), 8);
    assert_eq!(atlas.get_pixel(5, 3), 10);
    // level 2: 1 x 1 at (4, 1)
    assert_eq!(atlas.get_pixel(4, 1), 0);
    // untouched
    assert_eq!(atlas.get_pixel(4, 0), 99);
    assert_eq!(atlas.get_pixel(5, 0), 99);
    assert_eq!(atlas.get_pixel(5, 1), 99);
}

#[test]
fn nearest_mips_of_non_square_padded_input() {
    let input: Vec<u32> = (0..6).collect(); // 3 x 2
    let layout = mip_layout(3, 2);
    assert_eq!((layout.normalized_width, layout.normalized_height), (4, 2));
    let atlas = MipAtlas::generate_point_sampled_mips(&input, layout, 50);
    assert_eq!((atlas.width(), atlas.height()), (6, 2));
    assert_eq!(atlas.get_pixel(3, 0), 50);
    // level 1: 2 x 1 at (4, 1): columns 0 and 2 of row 0
    assert_eq!(atlas.get_pixel(4, 1), 0);
    assert_eq!(atlas.get_pixel(5, 1), 2);
    assert_eq!(atlas.get_pixel(4, 0), 50);
}
