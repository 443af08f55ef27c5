use raytracer::gltf_data::{
    buffer_view_from_data_uri, buffer_view_slice, decode_base64_image, select_camera,
    triangle_indices, view_of_decoded, BufferViewError, GltfImportError,
};
use raytracer::octant::{side_to_index, OctantSides};
use raytracer::shuffle::MakeShuffleMask;
use raytracer::uri::{resolve_uri, resolve_uri_with_scheme, UriError, UriResolved};

#[test]
fn resolve_data_uri_keeps_marker() {
    match resolve_uri("data:application/octet-stream;base64,AAAA") {
        Ok(UriResolved::Base64(tail)) => assert_eq!(tail, ";base64,AAAA"),
        _ => panic!("expected base64"),
    }
}

#[test]
fn resolve_uri_refuses_other_schemes() {
    assert!(matches!(resolve_uri("http://example.com/a.bin"), Err(UriError::UnsupportedProtocol)));
}

#[test]
fn resolve_uri_refuses_plain_data() {
    assert!(matches!(resolve_uri("data:text/plain,hello"), Err(UriError::NotBase64)));
}

#[test]
fn resolve_uri_refuses_garbage() {
    assert!(matches!(resolve_uri("not a uri"), Err(UriError::Corrupted)));
}

#[test]
fn buffer_view_of_inline_buffer() {
    let uri = "data:application/octet-stream;base64,AAECAwQF";
    assert_eq!(buffer_view_from_data_uri(uri, 1, 3).ok(), Some(vec![1u8, 2, 3]));
    assert_eq!(buffer_view_from_data_uri(uri, 0, 6).ok(), Some(vec![0u8, 1, 2, 3, 4, 5]));
    assert!(matches!(buffer_view_from_data_uri(uri, 4, 5), Err(BufferViewError::OutOfBounds)));
}

#[test]
fn buffer_view_errors() {
    assert!(matches!(
        buffer_view_from_data_uri("data:application/octet-stream;base64,A", 0, 0),
        Err(BufferViewError::InvalidBase64)
    ));
    assert!(matches!(
        buffer_view_from_data_uri("file:///a.bin", 0, 0),
        Err(BufferViewError::Uri(UriError::UnsupportedProtocol))
    ));
}

#[test]
fn buffer_view_slice_takes_range() {
    assert_eq!(buffer_view_slice(&[5, 6, 7, 8], 1, 2), vec![6, 7]);
    assert_eq!(buffer_view_slice(&[5, 6, 7, 8], 4, 0), Vec::<u8>::new());
}

#[test]
fn decode_image_base64() {
    assert_eq!(decode_base64_image(b"AAECAwQF"), Some(vec![0, 1, 2, 3, 4, 5]));
    assert_eq!(decode_base64_image(b"AQ=="), Some(vec![1]));
    assert_eq!(decode_base64_image(b"!!"), None);
}

#[test]
fn triangles_from_index_list() {
    assert_eq!(triangle_indices(&vec![0, 1, 2, 3, 4, 5, 6]), vec![(0, 1, 2), (3, 4, 5)]);
    assert_eq!(triangle_indices(&vec![9, 8]), vec![]);
    assert_eq!(triangle_indices(&vec![]), vec![]);
}

#[test]
fn camera_selection() {
    let names = vec![Some("a".to_string()), None, Some("b".to_string())];
    assert_eq!(select_camera(&names, "b"), 2);
    assert_eq!(select_camera(&names, "_"), 1);
    assert_eq!(select_camera(&names, "a"), 0);
    assert_eq!(select_camera(&names, "missing"), 0);
}

#[test]
fn import_error_keeps_cause() {
    let e = GltfImportError::new("No positions found".to_string());
    assert_eq!(e.cause(), "No positions found");
}

#[test]
fn shuffle_masks() {
    assert_eq!(MakeShuffleMask(0, 1, 2, 3), 0b11_10_01_00);
    assert_eq!(MakeShuffleMask(3, 3, 3, 3), 255);
    assert_eq!(MakeShuffleMask(2, 0, 0, 0), 2);
}

#[test]
fn octant_slots() {
    assert_eq!(side_to_index(&OctantSides { x: true, y: false, z: true }), 5);
    assert_eq!(side_to_index(&OctantSides { x: false, y: false, z: false }), 0);
    assert_eq!(side_to_index(&OctantSides { x: true, y: true, z: true }), 7);
}

#[test]
fn resolve_with_given_scheme() {
    let uri = "data:image/png;base64,iVBO;base64,x";
    match resolve_uri_with_scheme(uri, &Some("data".to_string())) {
        Ok(UriResolved::Base64(tail)) => assert_eq!(tail, ";base64,iVBO;base64,x"),
        _ => panic!("expected base64"),
    }
    assert!(matches!(resolve_uri_with_scheme(uri, &None), Err(UriError::Corrupted)));
    assert!(matches!(
        resolve_uri_with_scheme(uri, &Some("https".to_string())),
        Err(UriError::UnsupportedProtocol)
    ));
    assert!(matches!(
        resolve_uri_with_scheme("data:text/plain,hi", &Some("data".to_string())),
        Err(UriError::NotBase64)
    ));
}

#[test]
fn view_of_decoded_data() {
    assert_eq!(view_of_decoded(Some(vec![1, 2, 3, 4]), 1, 2).ok(), Some(vec![2u8, 3]));
    assert_eq!(view_of_decoded(Some(vec![1, 2, 3, 4]), 4, 0).ok(), Some(vec![]));
    assert!(matches!(view_of_decoded(Some(vec![1, 2, 3, 4]), 3, 2), Err(BufferViewError::OutOfBounds)));
    assert!(matches!(view_of_decoded(None, 0, 0), Err(BufferViewError::InvalidBase64)));
}

#[test]
fn resolve_uri_refuses_colon_segments() {
    assert!(matches!(resolve_uri("://www.example.com/"), Err(UriError::Corrupted)));
    assert!(matches!(resolve_uri(":"), Err(UriError::Corrupted)));
    assert!(matches!(resolve_uri("1:x"), Err(UriError::Corrupted)));
    assert!(matches!(
        buffer_view_from_data_uri("://www.example.com/", 0, 0),
        Err(BufferViewError::Uri(UriError::Corrupted))
    ));
}
