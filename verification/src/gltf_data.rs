use vstd::prelude::*;
use vstd::string::StringSliceAdditionalSpecFns;
use vstd::slice::{slice_subrange, slice_to_vec};
use itertools::Itertools;
use base64::Engine;

use crate::uri::{
    resolve_uri, resolution, UriResolved, UriError, parsed_uri_scheme, base64_marker,
    lemma_find_from_some,
};

verus! {

/// An error met while importing a glTF scene.
pub struct GltfImportError {
    cause: String,
}

impl GltfImportError {
    pub closed spec fn spec_cause(&self) -> Seq<char> {
        self.cause@
    }

    pub fn new(cause: String) -> (e: Self)
        ensures
            e.spec_cause() == cause@,
    {
        Self { cause }
    }

    /// The text that describes the error.
    pub fn cause(&self) -> (c: &String)
        ensures
            c@ == self.spec_cause(),
    {
        &self.cause
    }
}

/// `Itertools::tuple_windows` over the index list, collected. Its contract
/// restates the crate's documentation: every run of three consecutive
/// indices, in order.
#[verifier::external_body]
fn index_windows(indices: &Vec<u32>) -> (windows: Vec<(u32, u32, u32)>)
    ensures
        windows.len() == if indices.len() >= 2 {
            indices.len() - 2
        } else {
            0
        },
        forall|i: int|
            0 <= i < windows.len() ==> #[trigger] windows[i] == (
                indices[i],
                indices[i + 1],
                indices[i + 2],
            ),
{
    indices.iter().copied().tuple_windows().collect()
}

/// The triangles of a triangle-list mesh: indices `3t`, `3t + 1`, `3t + 2`
/// for every whole triple; trailing indices that do not make a triple are dropped.
pub fn triangle_indices(indices: &Vec<u32>) -> (triangles: Vec<(u32, u32, u32)>)
    ensures
        triangles.len() == indices.len() / 3,
        forall|t: int|
            0 <= t < triangles.len() ==> #[trigger] triangles[t] == (
                indices[3 * t],
                indices[3 * t + 1],
                indices[3 * t + 2],
            ),
{
    let windows = index_windows(indices);
    let mut triangles: Vec<(u32, u32, u32)> = Vec::new();
    let mut k: usize = 0;
    while k < windows.len()
        invariant
            windows.len() == if indices.len() >= 2 {
                indices.len() - 2
            } else {
                0
            },
            forall|i: int|
                0 <= i < windows.len() ==> #[trigger] windows[i] == (
                    indices[i],
                    indices[i + 1],
                    indices[i + 2],
                ),
            k % 3 == 0,
            k <= windows.len() + 2,
            triangles.len() == k / 3,
            k / 3 <= indices.len() / 3,
            k < windows.len() || k / 3 == indices.len() / 3 || windows.len() == 0,
            forall|t: int|
                0 <= t < triangles.len() ==> #[trigger] triangles[t] == (
                    indices[3 * t],
                    indices[3 * t + 1],
                    indices[3 * t + 2],
                ),
        decreases windows.len() + 2 - k,
    {
        triangles.push(windows[k]);
        k = k + 3;
    }
    triangles
}

/// The name a camera is matched by: its own, or `_` for a camera without one.
pub open spec fn camera_key(name: Option<String>) -> Seq<char> {
    match name {
        Some(n) => n@,
        None => seq!['_'],
    }
}

/// A camera is matched by its whole name, and a camera without a name by `_`.
pub proof fn lemma_camera_key_is_whole_name(name: String)
    ensures
        camera_key(Some(name)) == name@,
        camera_key(None) == seq!['_'],
{
}

/// Picks the camera named `camera_name`; falls back to the first camera.
pub fn select_camera(names: &Vec<Option<String>>, camera_name: &str) -> (index: usize)
    requires
        names.len() > 0,
    ensures
        index < names.len(),
        forall|j: int| 0 <= j < index ==> camera_key(#[trigger] names[j]) != camera_name@,
        camera_key(names[index as int]) == camera_name@ || (index == 0 && forall|j: int|
            0 <= j < names.len() ==> camera_key(#[trigger] names[j]) != camera_name@),
        forall|j: int|
            0 <= j < index ==> match #[trigger] names[j] {
                Some(n) => n@ != camera_name@,
                None => camera_name@ != seq!['_'],
            },
        (exists|j: int|
            0 <= j < names.len() && match #[trigger] names[j] {
                Some(n) => n@ == camera_name@,
                None => camera_name@ == seq!['_'],
            }) ==> match names[index as int] {
            Some(n) => n@ == camera_name@,
            None => camera_name@ == seq!['_'],
        },
{
    let wanted: String = camera_name.to_owned();
    let unnamed: String = "_".to_owned();
    proof {
        reveal_strlit("_");
        assert(unnamed@ =~= seq!['_']);
    }
    let mut i: usize = 0;
    while i < names.len()
        invariant
            i <= names.len(),
            wanted@ == camera_name@,
            unnamed@ == seq!['_'],
            forall|j: int| 0 <= j < i ==> camera_key(#[trigger] names[j]) != camera_name@,
        decreases names.len() - i,
    {
        let found = match &names[i] {
            Some(name) => *name == wanted,
            None => unnamed == wanted,
        };
        if found {
            return i;
        }
        i = i + 1;
    }
    0
}

/// Bytes `offset .. offset + length` of a buffer.
pub fn buffer_view_slice(buffer: &[u8], offset: usize, length: usize) -> (bytes: Vec<u8>)
    requires
        offset + length <= buffer@.len(),
    ensures
        bytes@ == buffer@.subrange(offset as int, offset + length),
{
    let buffer_len: usize = buffer.len();
    assert(offset + length <= buffer_len);
    slice_to_vec(slice_subrange(buffer, offset, offset + length))
}

/// The bytes that base64 text without padding (standard alphabet) decodes to,
/// or `None` where the text is not such base64.
pub uninterp spec fn base64_no_pad_decoded(text: Seq<u8>) -> Option<Seq<u8>>;

/// The bytes that padded base64 text (standard alphabet) decodes to, or
/// `None` where the text is not such base64.
pub uninterp spec fn base64_padded_decoded(text: Seq<u8>) -> Option<Seq<u8>>;

#[verifier::external_type_specification]
#[verifier::external_body]
pub struct ExDecodeError(base64::DecodeError);

/// `STANDARD_NO_PAD.decode` of the `base64` crate. The contract claims only
/// that the outcome is `base64_no_pad_decoded` of the input: decoding depends
/// on the text alone. Which bytes a given text decodes to is not stated.
#[verifier::external_body]
fn decode_base64_no_pad(text: &[u8]) -> (r: Result<Vec<u8>, base64::DecodeError>)
    ensures
        match r {
            Ok(v) => base64_no_pad_decoded(text@) == Some(v@),
            Err(_) => base64_no_pad_decoded(text@) is None,
        },
{
    base64::engine::general_purpose::STANDARD_NO_PAD.decode(text)
}

/// `STANDARD.decode` of the `base64` crate. The contract claims only that the
/// outcome is `base64_padded_decoded` of the input. Which bytes a given text
/// decodes to is not stated.
#[verifier::external_body]
fn decode_base64_padded(text: &[u8]) -> (r: Result<Vec<u8>, base64::DecodeError>)
    ensures
        match r {
            Ok(v) => base64_padded_decoded(text@) == Some(v@),
            Err(_) => base64_padded_decoded(text@) is None,
        },
{
    base64::engine::general_purpose::STANDARD.decode(text)
}

/// Why the bytes of a buffer view could not be had.
#[derive(Debug, PartialEq, Eq, Structural)]
pub enum BufferViewError {
    /// The buffer's URI does not resolve.
    Uri(UriError),
    /// The inline data is not base64.
    InvalidBase64,
    /// The view reaches past the end of the decoded buffer.
    OutOfBounds,
}

/// The encoded-image bytes of an image given as base64 text.
pub fn decode_base64_image(text: &[u8]) -> (r: Option<Vec<u8>>)
    ensures
        match r {
            Some(v) => base64_padded_decoded(text@) == Some(v@),
            None => base64_padded_decoded(text@) is None,
        },
{
    match decode_base64_padded(text) {
        Ok(bytes) => Some(bytes),
        Err(_) => None,
    }
}

/// The view `offset .. offset + length` of decoded buffer data, where
/// `decoded` is what base64 decoding gave (`None`: the text was not base64).
pub open spec fn decoded_view(decoded: Option<Seq<u8>>, offset: int, length: int) -> Result<
    Seq<u8>,
    BufferViewError,
> {
    match decoded {
        None => Err(BufferViewError::InvalidBase64),
        Some(data) => if offset + length <= data.len() {
            Ok(data.subrange(offset, offset + length))
        } else {
            Err(BufferViewError::OutOfBounds)
        },
    }
}

/// The bytes of a buffer view result.
pub open spec fn view_result(r: Result<Vec<u8>, BufferViewError>) -> Result<Seq<u8>, BufferViewError> {
    match r {
        Ok(v) => Ok(v@),
        Err(e) => Err(e),
    }
}

/// Takes the view `offset .. offset + length` out of the data that base64
/// decoding gave (`None` where decoding failed).
pub fn view_of_decoded(decoded: Option<Vec<u8>>, offset: usize, length: usize) -> (r: Result<
    Vec<u8>,
    BufferViewError,
>)
    ensures
        view_result(r) == decoded_view(
            match decoded {
                Some(v) => Some(v@),
                None => None,
            },
            offset as int,
            length as int,
        ),
{
    match decoded {
        None => Err(BufferViewError::InvalidBase64),
        Some(data) => if offset <= data.len() && length <= data.len() - offset {
            Ok(buffer_view_slice(data.as_slice(), offset, length))
        } else {
            Err(BufferViewError::OutOfBounds)
        },
    }
}

/// What the bytes of the view `offset .. offset + length` of a buffer given by
/// URI `uri` are: the URI must be a base64 `data:` URI; its text after the
/// `;base64,` marker is decoded without padding, and the view taken from the result.
pub open spec fn data_uri_view(uri: Seq<char>, uri_bytes: Seq<u8>, offset: int, length: int) -> Result<
    Seq<u8>,
    BufferViewError,
> {
    match resolution(uri_bytes, parsed_uri_scheme(uri)) {
        Err(e) => Err(BufferViewError::Uri(e)),
        Ok(i) => decoded_view(
            base64_no_pad_decoded(uri_bytes.subrange(i + 8, uri_bytes.len() as int)),
            offset,
            length,
        ),
    }
}

/// An inline buffer is the base64 text after the URI's first `;base64,`
/// marker, decoded without padding: the view is read from exactly those
/// bytes, and it fails only where that decoding fails or the view runs past
/// the decoded data.
pub proof fn lemma_data_uri_decodes_without_padding(
    uri: Seq<char>,
    uri_bytes: Seq<u8>,
    offset: int,
    length: int,
    i: int,
)
    requires
        resolution(uri_bytes, parsed_uri_scheme(uri)) == Ok::<int, UriError>(i),
    ensures
        data_uri_view(uri, uri_bytes, offset, length) == match base64_no_pad_decoded(
            uri_bytes.subrange(i + 8, uri_bytes.len() as int),
        ) {
            None => Err(BufferViewError::InvalidBase64),
            Some(data) => if offset + length <= data.len() {
                Ok(data.subrange(offset, offset + length))
            } else {
                Err(BufferViewError::OutOfBounds)
            },
        },
{
}

/// The bytes of the view `offset .. offset + length` of a buffer stored inline
/// in a base64 `data:` URI.
pub fn buffer_view_from_data_uri(uri: &str, offset: usize, length: usize) -> (r: Result<
    Vec<u8>,
    BufferViewError,
>)
    ensures
        view_result(r) == data_uri_view(uri@, uri.spec_bytes(), offset as int, length as int),
        forall|i: int|
            resolution(uri.spec_bytes(), parsed_uri_scheme(uri@)) == Ok::<int, UriError>(i)
                ==> match base64_no_pad_decoded(
                uri.spec_bytes().subrange(i + 8, uri.spec_bytes().len() as int),
            ) {
                None => r == Err::<Vec<u8>, BufferViewError>(BufferViewError::InvalidBase64),
                Some(data) => if offset + length <= data.len() {
                    r matches Ok(v) && v@ == data.subrange(offset as int, offset + length)
                } else {
                    r == Err::<Vec<u8>, BufferViewError>(BufferViewError::OutOfBounds)
                },
            },
{
    let tail = match resolve_uri(uri) {
        Err(e) => {
            return Err(BufferViewError::Uri(e));
        },
        Ok(UriResolved::Buffer) => {
            // resolve_uri never answers Buffer
            proof {
                assert(false);
            }
            return Err(BufferViewError::Uri(UriError::Corrupted));
        },
        Ok(UriResolved::Base64(tail)) => tail,
    };
    let tail_bytes = tail.as_bytes();
    let ghost i = resolution(uri.spec_bytes(), parsed_uri_scheme(uri@))->Ok_0;
    proof {
        lemma_find_from_some(uri.spec_bytes(), base64_marker(), 0);
        assert(tail_bytes@.len() >= 8);
    }
    let payload = slice_subrange(tail_bytes, 8, tail_bytes.len());
    proof {
        assert(payload@ =~= uri.spec_bytes().subrange(i + 8, uri.spec_bytes().len() as int));
    }
    let decoded = match decode_base64_no_pad(payload) {
        Err(_) => None,
        Ok(data) => Some(data),
    };
    view_of_decoded(decoded, offset, length)
}

} // verus!
