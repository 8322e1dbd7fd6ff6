//! The failures an import can end in.

use vstd::prelude::*;

verus! {

/// Why an import, or an access to its result, failed.
///
/// Every failure is final: nothing is retried and no partial result is kept.
/// The variants that concern one buffer carry its position in the document's
/// buffer list.
#[derive(Clone, Copy, Debug, PartialEq, Eq, Structural)]
pub enum ImportError {
    /// The binary container's header or chunk table is inconsistent, or its
    /// JSON chunk is missing.
    MalformedContainer,
    /// The JSON text is not a valid document.
    MalformedDocument,
    /// A `data:` URI has no comma between its prefix and its payload.
    MalformedDataUri { index: usize },
    /// The payload of a `data:` URI is not valid base64.
    Base64Decode { index: usize },
    /// A buffer asks for the embedded binary chunk, but the container has
    /// none or an earlier buffer has taken it.
    UnavailableChunk { index: usize },
    /// The byte source could not supply the file of an external buffer.
    ExternalRead { index: usize },
    /// The bytes obtained for a buffer are fewer than it declares.
    LengthMismatch { index: usize },
    /// A buffer view reaches past the end of its buffer.
    BoundsViolation { buffer: usize, offset: usize, length: usize },
}

/// The character of a digit.
pub open spec fn digit(d: nat) -> char
    recommends
        d < 10,
{
    seq!['0', '1', '2', '3', '4', '5', '6', '7', '8', '9'][d as int]
}

/// A number written in base ten, without sign or leading zeros.
pub open spec fn decimal(n: nat) -> Seq<char>
    decreases n,
{
    if n < 10 {
        seq![digit(n)]
    } else {
        decimal(n / 10).push(digit(n % 10))
    }
}

/// The place of a buffer declaration in the JSON document: `buffers[3]` for
/// the buffer at index 3.
pub open spec fn buffer_path(index: nat) -> Seq<char> {
    "buffers["@ + decimal(index) + "]"@
}

/// `gltf::json::Path`: the path that `index` makes of the field `buffers` of
/// the empty path, as it prints. A field of the empty path is the field's
/// name; an index appends the number, in base ten, in square brackets.
#[verifier::external_body]
fn json_buffer_path(index: usize) -> (r: String)
    ensures
        r@ == buffer_path(index as nat),
{
    gltf::json::Path::new().field("buffers").index(index).to_string()
}

impl ImportError {
    /// The index of the buffer whose resolution failed, if the failure is
    /// that of a buffer.
    pub open spec fn spec_buffer_index(self) -> Option<usize> {
        match self {
            ImportError::MalformedContainer => None,
            ImportError::MalformedDocument => None,
            ImportError::MalformedDataUri { index } => Some(index),
            ImportError::Base64Decode { index } => Some(index),
            ImportError::UnavailableChunk { index } => Some(index),
            ImportError::ExternalRead { index } => Some(index),
            ImportError::LengthMismatch { index } => Some(index),
            ImportError::BoundsViolation { .. } => None,
        }
    }

    /// The index of the buffer whose resolution failed, if the failure is
    /// that of a buffer.
    #[verifier::when_used_as_spec(spec_buffer_index)]
    pub fn buffer_index(self) -> (r: Option<usize>)
        ensures
            r == self.spec_buffer_index(),
    {
        match self {
            ImportError::MalformedContainer => None,
            ImportError::MalformedDocument => None,
            ImportError::MalformedDataUri { index } => Some(index),
            ImportError::Base64Decode { index } => Some(index),
            ImportError::UnavailableChunk { index } => Some(index),
            ImportError::ExternalRead { index } => Some(index),
            ImportError::LengthMismatch { index } => Some(index),
            ImportError::BoundsViolation { .. } => None,
        }
    }

    /// Where in the document the declaration of the failed buffer stands, so
    /// that a caller can point at it.
    pub fn document_path(self) -> (r: Option<String>)
        ensures
            self.spec_buffer_index() matches Some(index) ==> r matches Some(path) && path@
                == buffer_path(index as nat),
            self.spec_buffer_index().is_none() ==> r.is_none(),
    {
        match self.buffer_index() {
            Some(index) => Some(json_buffer_path(index)),
            None => None,
        }
    }
}

} // verus!
