use vstd::prelude::*;
use vstd::string::StringSliceAdditionalSpecFns;
use vstd::utf8::{
    encode_utf8_valid_utf8, is_char_boundary, is_char_boundary_iff_not_is_continuation_byte,
    is_continuation_byte,
};

verus! {

/// What a resource URI of a glTF file points at.
pub enum UriResolved<'a> {
    /// The file's binary chunk.
    Buffer,
    /// Inline data: the URI from its `;base64,` marker on.
    Base64(&'a str),
}

/// Why a URI could not be resolved.
#[derive(Debug, PartialEq, Eq, Structural)]
pub enum UriError {
    /// The text is not a URI.
    Corrupted,
    /// A `data:` URI without a `;base64,` marker.
    NotBase64,
    /// A scheme other than `data`.
    UnsupportedProtocol,
}

/// The scheme that `uriparse` reads from `input` (registered schemes in lower
/// case), or `None` where it does not parse `input` as a URI.
pub uninterp spec fn parsed_uri_scheme(input: Seq<char>) -> Option<Seq<char>>;

/// `uriparse::URIReference::try_from`, then `uriparse::URI::try_from` on the
/// reference, then `URI::scheme` and `Scheme::as_str`. Neither conversion
/// panics: each answers an error where the text is not a URI. The contract
/// claims that the result is `parsed_uri_scheme` of the input: the parse
/// depends on the text alone. What that scheme is for a given text is not
/// stated.
#[verifier::external_body]
fn uri_scheme(input: &str) -> (scheme: Option<String>)
    ensures
        match scheme {
            Some(s) => parsed_uri_scheme(input@) == Some(s@),
            None => parsed_uri_scheme(input@) is None,
        },
{
    match uriparse::URIReference::try_from(input) {
        Ok(reference) => match uriparse::URI::try_from(reference) {
            Ok(uri) => Some(uri.scheme().as_str().to_string()),
            Err(_) => None,
        },
        Err(_) => None,
    }
}

/// The bytes of `;base64,`.
pub open spec fn base64_marker() -> Seq<u8> {
    seq![59u8, 98u8, 97u8, 115u8, 101u8, 54u8, 52u8, 44u8]
}

/// `needle` occurs in `hay` at byte `i`.
pub open spec fn occurs_at(hay: Seq<u8>, needle: Seq<u8>, i: int) -> bool {
    0 <= i && i + needle.len() <= hay.len() && hay.subrange(i, i + needle.len()) == needle
}

/// The first index at or after `from` where `needle` occurs in `hay`.
pub open spec fn find_from(hay: Seq<u8>, needle: Seq<u8>, from: int) -> Option<int>
    decreases hay.len() + 1 - from,
{
    if from < 0 || from + needle.len() > hay.len() {
        None
    } else if occurs_at(hay, needle, from) {
        Some(from)
    } else {
        find_from(hay, needle, from + 1)
    }
}

pub(crate) proof fn lemma_find_from_some(hay: Seq<u8>, needle: Seq<u8>, from: int)
    requires
        from >= 0,
    ensures
        find_from(hay, needle, from) matches Some(i) ==> occurs_at(hay, needle, i) && from <= i
            && forall|j: int| from <= j < i ==> !occurs_at(hay, needle, j),
        find_from(hay, needle, from) is None ==> forall|j: int|
            from <= j ==> !occurs_at(hay, needle, j),
    decreases hay.len() + 1 - from,
{
    if from + needle.len() > hay.len() {
    } else if occurs_at(hay, needle, from) {
    } else {
        lemma_find_from_some(hay, needle, from + 1);
    }
}

/// The byte index of the first `;base64,` in `bytes`.
fn find_base64_marker(bytes: &[u8]) -> (index: Option<usize>)
    ensures
        index matches Some(i) ==> find_from(bytes@, base64_marker(), 0) == Some(i as int),
        index is None ==> find_from(bytes@, base64_marker(), 0) is None,
{
    let marker: [u8; 8] = [59u8, 98u8, 97u8, 115u8, 101u8, 54u8, 52u8, 44u8];
    assert(marker@ == base64_marker());
    let len = bytes.len();
    if len < 8 {
        return None;
    }
    let mut i: usize = 0;
    while i <= len - 8
        invariant
            len == bytes@.len(),
            len >= 8,
            i <= len - 7,
            marker@ == base64_marker(),
            find_from(bytes@, base64_marker(), 0) == find_from(bytes@, base64_marker(), i as int),
        decreases len - i,
    {
        let mut k: usize = 0;
        let mut matches = true;
        while k < 8
            invariant
                i + 8 <= len == bytes@.len(),
                k <= 8,
                marker@ == base64_marker(),
                matches <==> forall|m: int| 0 <= m < k ==> bytes@[i + m] == marker@[m],
            decreases 8 - k,
        {
            if bytes[i + k] != marker[k] {
                matches = false;
            }
            k = k + 1;
        }
        if matches {
            assert(bytes@.subrange(i as int, i + 8) =~= base64_marker());
            return Some(i);
        }
        assert(!occurs_at(bytes@, base64_marker(), i as int)) by {
            if occurs_at(bytes@, base64_marker(), i as int) {
                let m = choose|m: int| 0 <= m < 8 && bytes@[i + m] != marker@[m];
                assert(bytes@.subrange(i as int, i + 8)[m] == bytes@[i + m]);
            }
        }
        i = i + 1;
    }
    None
}

/// The scheme is `data`.
pub open spec fn is_data_scheme(scheme: Seq<char>) -> bool {
    scheme == seq!['d', 'a', 't', 'a']
}

/// What a resource URI resolves to, given the scheme that the URI parser read
/// from it (`None`: the text did not parse as a URI): the byte index of its
/// first `;base64,`, or why it is refused.
pub open spec fn resolution(uri_bytes: Seq<u8>, scheme: Option<Seq<char>>) -> Result<int, UriError> {
    match scheme {
        None => Err(UriError::Corrupted),
        Some(s) => if !is_data_scheme(s) {
            Err(UriError::UnsupportedProtocol)
        } else {
            match find_from(uri_bytes, base64_marker(), 0) {
                None => Err(UriError::NotBase64),
                Some(i) => Ok(i),
            }
        },
    }
}

/// `r` is what resolving `uri_input` gives where `resolution` says `expected`:
/// the error, or the text from the marker at byte `i` on.
pub open spec fn resolved_as<'a>(
    uri_input: &'a str,
    expected: Result<int, UriError>,
    r: Result<UriResolved<'a>, UriError>,
) -> bool {
    match expected {
        Err(e) => r == Err::<UriResolved<'a>, UriError>(e),
        Ok(i) => r matches Ok(UriResolved::Base64(tail)) && tail.spec_bytes()
            == uri_input.spec_bytes().subrange(i, uri_input.spec_bytes().len() as int)
            && tail.spec_bytes().subrange(0, 8) == base64_marker(),
    }
}

/// Resolves a resource URI whose scheme was already read: `scheme` is what the
/// URI parser gave for `uri_input`. A `data` URI carrying `;base64,` resolves
/// to the text from its first `;base64,` on; every other URI is refused.
pub fn resolve_uri_with_scheme<'a>(uri_input: &'a str, scheme: &Option<String>) -> (r: Result<
    UriResolved<'a>,
    UriError,
>)
    ensures
        resolved_as(
            uri_input,
            resolution(
                uri_input.spec_bytes(),
                match scheme {
                    Some(s) => Some(s@),
                    None => None,
                },
            ),
            r,
        ),
{
    let s = match scheme {
        None => {
            return Err(UriError::Corrupted);
        },
        Some(s) => s.as_str(),
    };
    let is_data = s.unicode_len() == 4 && s.get_char(0) == 'd' && s.get_char(1) == 'a'
        && s.get_char(2) == 't' && s.get_char(3) == 'a';
    if !is_data {
        proof {
            if s@ =~= seq!['d', 'a', 't', 'a'] {
                assert(s@[0] == 'd');
            }
        }
        return Err(UriError::UnsupportedProtocol);
    }
    assert(s@ =~= seq!['d', 'a', 't', 'a']);
    let bytes = uri_input.as_bytes();
    match find_base64_marker(bytes) {
        None => Err(UriError::NotBase64),
        Some(index) => {
            proof {
                lemma_find_from_some(bytes@, base64_marker(), 0);
                encode_utf8_valid_utf8(uri_input@);
                assert(bytes@.subrange(index as int, index + 8)[0] == bytes@[index as int]);
                assert(!is_continuation_byte(bytes@[index as int]));
                is_char_boundary_iff_not_is_continuation_byte(bytes@, index as int);
            }
            let (_, tail) = uri_input.split_at(index);
            proof {
                assert(tail.spec_bytes().subrange(0, 8) =~= bytes@.subrange(
                    index as int,
                    index + 8,
                ));
            }
            Ok(UriResolved::Base64(tail))
        },
    }
}

/// Resolves a resource URI: its scheme is read by the URI parser, then
/// `resolve_uri_with_scheme` decides.
pub fn resolve_uri<'a>(uri_input: &'a str) -> (r: Result<UriResolved<'a>, UriError>)
    ensures
        resolved_as(uri_input, resolution(uri_input.spec_bytes(), parsed_uri_scheme(uri_input@)), r),
{
    let scheme = uri_scheme(uri_input);
    resolve_uri_with_scheme(uri_input, &scheme)
}

} // verus!
