//! Buffers carried inline, as the base64 payload of a `data:` URI.
//!
//! A data URI has the shape `data:[<mediatype>][;base64],<payload>`. Only the
//! first comma separates: everything after it is the payload, and the payload
//! is always read as base64, whatever the prefix says.

use crate::text::{find_first, first_index, lemma_first_index_unique};
use vstd::prelude::*;
use vstd::string::{StrSliceExecFns, StringExecFns};

verus! {

#[verifier::external_type_specification]
#[verifier::external_body]
pub struct ExDecodeError(base64::DecodeError);

/// The bytes that `base64::decode` yields for `text`, or `None` where it
/// reports an error.
pub uninterp spec fn base64_decoded(text: Seq<char>) -> Option<Seq<u8>>;

/// The text that `base64::encode` yields for `bytes`.
pub uninterp spec fn base64_encoded(bytes: Seq<u8>) -> Seq<char>;

/// The URI is the octet-stream prefix followed by the base64 text of `bytes`,
/// and `bytes` is short enough to be encoded.
pub open spec fn is_octet_stream_uri(uri: Seq<char>, bytes: Seq<u8>) -> bool {
    bytes.len() <= usize::MAX / 4 && uri == octet_stream_prefix() + base64_encoded(bytes)
}

/// `base64::decode`, on the standard alphabet. Its result is a function of the
/// text alone, named `base64_decoded`. Where the text is what `base64::encode`
/// yields for some bytes, the result is those bytes: decoding inverts
/// encoding. Nothing more is claimed of it.
///
/// The crate aborts only when computing a size from the input's length
/// overflows, which takes a length within seven of `usize::MAX`. No `str` is
/// that long.
#[verifier::external_body]
fn base64_decode(text: &str) -> (r: Result<Vec<u8>, base64::DecodeError>)
    ensures
        r matches Ok(bytes) ==> base64_decoded(text@) == Some(bytes@),
        r is Err ==> base64_decoded(text@).is_none(),
        forall|bytes: Seq<u8>|
            bytes.len() <= usize::MAX / 4 && text@ == #[trigger] base64_encoded(bytes) ==> r is Ok
                && r->Ok_0@ == bytes,
{
    base64::decode(text)
}

/// `base64::encode`, on the standard alphabet with padding. Its result is a
/// function of the bytes alone, named `base64_encoded`, and `base64::decode`
/// turns that text back into the same bytes.
///
/// The crate aborts when the encoded size, four characters for every three
/// bytes, cannot be computed or allocated; the bound on the input keeps the
/// size below `isize::MAX`.
#[verifier::external_body]
fn base64_encode(bytes: &[u8]) -> (r: String)
    requires
        bytes@.len() <= usize::MAX / 4,
    ensures
        r@ == base64_encoded(bytes@),
        base64_decoded(r@) == Some(bytes@),
{
    base64::encode(bytes)
}

/// Why a data URI could not be decoded.
#[derive(Clone, Copy, Debug, PartialEq, Eq, Structural)]
pub enum DataUriError {
    /// The URI holds no comma, so it has no payload.
    MissingComma,
    /// The payload is not valid base64.
    InvalidBase64,
}

/// The scheme that marks a URI as inline data.
pub open spec fn data_scheme() -> Seq<char> {
    seq!['d', 'a', 't', 'a', ':']
}

/// The URI starts with `data:`.
pub open spec fn is_data_uri(uri: Seq<char>) -> bool {
    data_scheme().is_prefix_of(uri)
}

/// What follows the first comma of the URI.
pub open spec fn data_uri_payload(uri: Seq<char>) -> Option<Seq<char>> {
    match first_index(uri, ',') {
        Some(k) => Some(uri.skip(k + 1)),
        None => None,
    }
}

/// The bytes a data URI stands for.
pub open spec fn data_uri_bytes(uri: Seq<char>) -> Result<Seq<u8>, DataUriError> {
    match data_uri_payload(uri) {
        None => Err(DataUriError::MissingComma),
        Some(payload) => match base64_decoded(payload) {
            Some(bytes) => Ok(bytes),
            None => Err(DataUriError::InvalidBase64),
        },
    }
}

/// Tells whether the URI starts with `data:`, reading at most five characters.
pub fn has_data_scheme(uri: &str) -> (r: bool)
    ensures
        r == is_data_uri(uri@),
{
    let mut it = uri.chars();
    let c0 = it.next();
    let c1 = it.next();
    let c2 = it.next();
    let c3 = it.next();
    let c4 = it.next();
    let r = c0 == Some('d') && c1 == Some('a') && c2 == Some('t') && c3 == Some('a') && c4 == Some(
        ':',
    );
    proof {
        if uri@.len() >= 5 {
            assert(data_scheme().is_prefix_of(uri@) <==> (uri@[0] == 'd' && uri@[1] == 'a'
                && uri@[2] == 't' && uri@[3] == 'a' && uri@[4] == ':')) by {
                let head = uri@.subrange(0, 5);
                if data_scheme() =~= head {
                    assert(head[0] == 'd' && head[1] == 'a' && head[2] == 't' && head[3] == 'a'
                        && head[4] == ':');
                }
            }
        }
    }
    r
}

/// Decodes a data URI: splits at the first comma and base64-decodes what
/// follows it.
pub fn parse_data_uri(uri: &str) -> (r: Result<Vec<u8>, DataUriError>)
    ensures
        r matches Ok(bytes) ==> data_uri_bytes(uri@) == Ok::<Seq<u8>, DataUriError>(bytes@),
        r matches Err(e) ==> data_uri_bytes(uri@) == Err::<Seq<u8>, DataUriError>(e),
        forall|bytes: Seq<u8>| #[trigger] is_octet_stream_uri(uri@, bytes) ==> r is Ok && r->Ok_0@ == bytes,
{
    proof {
        assert forall|bytes: Seq<u8>| #[trigger] is_octet_stream_uri(uri@, bytes) implies data_uri_payload(
            uri@,
        ) == Some(base64_encoded(bytes)) by {
            lemma_octet_stream_payload(base64_encoded(bytes));
        }
    }
    match find_first(uri, ',') {
        None => Err(DataUriError::MissingComma),
        Some(k) => {
            let n = uri.unicode_len();
            let payload = uri.substring_char(k + 1, n);
            match base64_decode(payload) {
                Ok(bytes) => Ok(bytes),
                Err(_) => Err(DataUriError::InvalidBase64),
            }
        },
    }
}

/// The prefix under which `encode_data_uri` writes its payload.
pub open spec fn octet_stream_prefix() -> Seq<char> {
    "data:application/octet-stream;base64,"@
}

/// A URI made of the octet-stream prefix and any payload is a data URI whose
/// payload is that payload, commas in it included.
pub proof fn lemma_octet_stream_payload(payload: Seq<char>)
    ensures
        is_data_uri(octet_stream_prefix() + payload),
        data_uri_payload(octet_stream_prefix() + payload) == Some(payload),
{
    reveal_strlit("data:application/octet-stream;base64,");
    let prefix = octet_stream_prefix();
    let uri = prefix + payload;
    assert(prefix.len() == 37);
    assert(data_scheme() =~= uri.subrange(0, 5));
    assert(uri[36] == ',');
    assert forall|j: int| 0 <= j < 36 implies uri[j] != ',' by {
        assert(uri[j] == prefix[j]);
    }
    lemma_first_index_unique(uri, ',', 36);
    assert(uri.skip(37) =~= payload);
}

/// Writes bytes as a data URI: `data:application/octet-stream;base64,`
/// followed by their base64 text. Decoding the URI gives the bytes back
/// exactly, for every byte sequence, the empty one included: that is what
/// `parse_data_uri` promises of every URI of this shape.
pub fn encode_data_uri(bytes: &[u8]) -> (uri: String)
    requires
        bytes@.len() <= usize::MAX / 4,
    ensures
        uri@ == octet_stream_prefix() + base64_encoded(bytes@),
        is_octet_stream_uri(uri@, bytes@),
        is_data_uri(uri@),
        data_uri_bytes(uri@) == Ok::<Seq<u8>, DataUriError>(bytes@),
{
    let payload = base64_encode(bytes);
    let mut uri = String::from_str("data:application/octet-stream;base64,");
    uri.append(payload.as_str());
    proof {
        lemma_octet_stream_payload(payload@);
    }
    uri
}

} // verus!
