use raytracer::material_storage::MaterialStorageSized;
use raytracer::unresizable_array::UnresizableArray;

#[test]
fn unresizable_array_keeps_slots() {
    let mut a: UnresizableArray<String, 3> = UnresizableArray::with_capacity();
    assert_eq!(a.len(), 0);
    assert_eq!(a.push("zero".to_string()), 0);
    assert_eq!(a.push("one".to_string()), 1);
    assert_eq!(a.get_unchecked(0), "zero");
    assert_eq!(a.push("two".to_string()), 2);
    assert_eq!(a.len(), 3);
    assert_eq!(a.get_unchecked(0), "zero");
    assert_eq!(a.get_unchecked(1), "one");
    assert_eq!(a.get_unchecked(2), "two");
}

#[test]
fn material_storage_hands_out_slots() {
    let mut s: MaterialStorageSized<&str, u32, 2, 4> = MaterialStorageSized::new();
    assert_eq!(s.push_texture(7), 0);
    assert_eq!(s.push_material("matte"), 0);
    assert_eq!(s.push_texture(9), 1);
    assert_eq!(s.push_material("shiny"), 1);
    assert_eq!(*s.material(1), "shiny");
    assert_eq!(*s.texture(0), 7);
    assert_eq!(s.material_count(), 2);
    assert_eq!(s.texture_count(), 2);
}
