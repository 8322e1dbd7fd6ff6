//! Importing a glTF 2.0 asset from its bytes.
//!
//! An asset is either a JSON text or a binary container that holds the JSON
//! text and, optionally, one binary chunk. The first four bytes decide which.
//! Either way the document is parsed and its buffers are resolved.

use crate::container::{
    chunk_view, container_chunks, has_binary_magic, is_binary_container, split_container,
};
use crate::document::{document_of, parse_document};
use crate::error::ImportError;
use crate::document::DocumentModel;
use crate::resolver::{
    advance, holds_octet_streams, initial_state, load_external_buffers, Progress, ProgressModel,
};
use vstd::prelude::*;

verus! {

/// Where the import of a JSON text stands before any file is read.
pub open spec fn standard_outcome(data: Seq<u8>, base_path: Seq<char>) -> ProgressModel {
    match document_of(data) {
        None => ProgressModel::Failed(ImportError::MalformedDocument),
        Some(document) => advance(initial_state(document, base_path, None)),
    }
}

/// Where the import of a binary container stands before any file is read.
pub open spec fn binary_outcome(data: Seq<u8>, base_path: Seq<char>) -> ProgressModel {
    match container_chunks(data) {
        None => ProgressModel::Failed(ImportError::MalformedContainer),
        Some((json, bin)) => match document_of(json) {
            None => ProgressModel::Failed(ImportError::MalformedDocument),
            Some(document) => advance(initial_state(document, base_path, bin)),
        },
    }
}

/// The document that a binary container holds in its JSON chunk.
pub open spec fn binary_document(data: Seq<u8>) -> Option<DocumentModel> {
    match container_chunks(data) {
        Some((json, bin)) => document_of(json),
        None => None,
    }
}

/// The document of an asset, in either form.
pub open spec fn asset_document(data: Seq<u8>) -> Option<DocumentModel> {
    if is_binary_container(data) {
        binary_document(data)
    } else {
        document_of(data)
    }
}

/// Where the import of an asset stands before any file is read.
pub open spec fn import_outcome(data: Seq<u8>, path: Seq<char>) -> ProgressModel {
    if is_binary_container(data) {
        binary_outcome(data, path)
    } else {
        standard_outcome(data, path)
    }
}

/// Imports glTF 2.0 from the bytes of the asset at `path`.
///
/// The result says where the import stands: complete, failed, or in need of
/// an external file, after which `PendingRead::supply` carries it on.
///
/// An asset whose buffers are all octet-stream data URIs is complete at once,
/// without any file: each buffer holds exactly the bytes that were encoded.
pub fn import(data: &[u8], path: &str) -> (r: Progress)
    ensures
        r@ == import_outcome(data@, path@),
        r@.in_order(),
        forall|contents: Seq<Seq<u8>>|
            asset_document(data@).is_some() && #[trigger] holds_octet_streams(
                asset_document(data@).unwrap(),
                contents,
            ) ==> r@ == ProgressModel::Done(asset_document(data@).unwrap(), contents),
{
    if has_binary_magic(data) {
        import_binary(data, path)
    } else {
        import_standard(data, path)
    }
}

/// Imports an asset given as JSON text. It has no embedded binary chunk.
pub fn import_standard(data: &[u8], base_path: &str) -> (r: Progress)
    ensures
        r@ == standard_outcome(data@, base_path@),
        r@.in_order(),
        forall|contents: Seq<Seq<u8>>|
            document_of(data@).is_some() && #[trigger] holds_octet_streams(
                document_of(data@).unwrap(),
                contents,
            ) ==> r@ == ProgressModel::Done(document_of(data@).unwrap(), contents),
{
    match parse_document(data) {
        Err(e) => Progress::Failed(e),
        Ok(document) => load_external_buffers(base_path, document, None),
    }
}

/// Imports an asset given as a binary container.
pub fn import_binary(data: &[u8], base_path: &str) -> (r: Progress)
    ensures
        r@ == binary_outcome(data@, base_path@),
        r@.in_order(),
        forall|contents: Seq<Seq<u8>>|
            binary_document(data@).is_some() && #[trigger] holds_octet_streams(
                binary_document(data@).unwrap(),
                contents,
            ) ==> r@ == ProgressModel::Done(binary_document(data@).unwrap(), contents),
{
    match split_container(data) {
        Err(e) => Progress::Failed(e),
        Ok((json, bin)) => match parse_document(json.as_slice()) {
            Err(e) => Progress::Failed(e),
            Ok(document) => load_external_buffers(base_path, document, bin),
        },
    }
}

} // verus!
