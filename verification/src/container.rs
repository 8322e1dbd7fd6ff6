//! The binary container: telling it from a JSON text, and splitting it into
//! its JSON chunk and its optional binary chunk.
//!
//! A container starts with the four bytes `glTF`, a version and its total
//! length, both 32-bit little-endian. Its chunks follow, each with a length,
//! a four-byte type and a payload.

use crate::error::ImportError;
use vstd::prelude::*;
use vstd::slice::slice_index_get;

verus! {

/// The bytes `glTF`.
pub open spec fn binary_magic() -> Seq<u8> {
    seq![0x67u8, 0x6Cu8, 0x54u8, 0x46u8]
}

/// The data starts with the magic of a binary container. Nothing else
/// decides between the two forms of an asset.
pub open spec fn is_binary_container(data: Seq<u8>) -> bool {
    binary_magic().is_prefix_of(data)
}

/// The total length that the header declares, read from its bytes 8 to 11.
pub open spec fn header_length(data: Seq<u8>) -> nat
    recommends
        data.len() >= 12,
{
    (data[8] + data[9] * 0x100 + data[10] * 0x1_0000 + data[11] * 0x100_0000) as nat
}

/// The size of the header, the least total length a container can declare.
pub const HEADER_SIZE: usize = 12;

/// The header declares a total length that does not even cover the header.
pub open spec fn header_length_too_small(data: Seq<u8>) -> bool {
    is_binary_container(data) && data.len() >= HEADER_SIZE && header_length(data) < HEADER_SIZE
}

/// The JSON chunk and the optional binary chunk that
/// `gltf::binary::Glb::from_slice` splits a container into, or `None` where
/// it reports an error.
pub uninterp spec fn glb_chunks(data: Seq<u8>) -> Option<(Seq<u8>, Option<Seq<u8>>)>;

/// The bytes of an optional chunk.
pub open spec fn chunk_view(chunk: Option<Vec<u8>>) -> Option<Seq<u8>> {
    match chunk {
        Some(bytes) => Some(bytes@),
        None => None,
    }
}

/// `gltf::binary::Glb::from_slice`, with the two chunks copied out. The
/// outcome is a function of the data alone, named `glb_chunks`.
///
/// The crate subtracts the header's size from the declared total length
/// before it checks it, and aborts where that length is smaller; such input
/// is left out.
#[verifier::external_body]
fn glb_from_slice(data: &[u8]) -> (r: Result<(Vec<u8>, Option<Vec<u8>>), gltf::Error>)
    requires
        !header_length_too_small(data@),
    ensures
        r matches Ok(chunks) ==> glb_chunks(data@) == Some((chunks.0@, chunk_view(chunks.1))),
        r is Err ==> glb_chunks(data@).is_none(),
{
    let glb = gltf::binary::Glb::from_slice(data)?;
    Ok((glb.json.into_owned(), glb.bin.map(|bin| bin.into_owned())))
}

/// The chunks of a container: none where the declared total length is
/// smaller than the header, else what the container parser finds.
pub open spec fn container_chunks(data: Seq<u8>) -> Option<(Seq<u8>, Option<Seq<u8>>)> {
    if header_length_too_small(data) {
        None
    } else {
        glb_chunks(data)
    }
}

/// Tells a binary container from a JSON text by its first four bytes.
pub fn has_binary_magic(data: &[u8]) -> (r: bool)
    ensures
        r == is_binary_container(data@),
{
    if data.len() < 4 {
        return false;
    }
    let r = *slice_index_get(data, 0) == 0x67 && *slice_index_get(data, 1) == 0x6C
        && *slice_index_get(data, 2) == 0x54 && *slice_index_get(data, 3) == 0x46;
    proof {
        let head = data@.subrange(0, 4);
        if binary_magic() =~= head {
            assert(head[0] == 0x67 && head[1] == 0x6C && head[2] == 0x54 && head[3] == 0x46);
        }
    }
    r
}

/// Reads the total length that the header declares.
fn declared_length(data: &[u8]) -> (r: u32)
    requires
        data@.len() >= HEADER_SIZE,
    ensures
        r == header_length(data@),
{
    let b0: u32 = *slice_index_get(data, 8) as u32;
    let b1: u32 = *slice_index_get(data, 9) as u32;
    let b2: u32 = *slice_index_get(data, 10) as u32;
    let b3: u32 = *slice_index_get(data, 11) as u32;
    b0 + b1 * 0x100 + b2 * 0x1_0000 + b3 * 0x100_0000
}

/// Splits a binary container into its JSON chunk and its optional binary
/// chunk. The JSON chunk is required; a container may carry no binary chunk.
pub fn split_container(data: &[u8]) -> (r: Result<(Vec<u8>, Option<Vec<u8>>), ImportError>)
    ensures
        r matches Ok(chunks) ==> container_chunks(data@) == Some(
            (chunks.0@, chunk_view(chunks.1)),
        ),
        r matches Err(e) ==> e == ImportError::MalformedContainer && container_chunks(
            data@,
        ).is_none(),
{
    if has_binary_magic(data) && data.len() >= HEADER_SIZE && (declared_length(data) as usize)
        < HEADER_SIZE {
        return Err(ImportError::MalformedContainer);
    }
    match glb_from_slice(data) {
        Ok(chunks) => Ok(chunks),
        Err(_) => Err(ImportError::MalformedContainer),
    }
}

} // verus!
