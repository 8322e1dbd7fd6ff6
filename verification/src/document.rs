//! The part of a glTF document that buffer resolution reads: the buffers it
//! declares and the views it lays over them.

use crate::container::is_binary_container;
use crate::error::ImportError;
use vstd::prelude::*;

verus! {

#[verifier::external_type_specification]
#[verifier::external_body]
pub struct ExGltfError(gltf::Error);

/// Where the bytes of a buffer come from.
#[derive(Clone, Debug, PartialEq, Eq)]
pub enum BufferSource {
    /// The binary chunk embedded in the container of the asset.
    Bin,
    /// A URI: inline data where it starts with `data:`, else the path of a
    /// file beside the asset.
    Uri(String),
}

/// A buffer as the document declares it. Its index is its position in the
/// document's buffer list.
#[derive(Clone, Debug, PartialEq, Eq)]
pub struct BufferDecl {
    /// The least number of bytes the source must supply.
    pub length: usize,
    pub source: BufferSource,
}

/// A range of bytes of one buffer.
#[derive(Clone, Copy, Debug, PartialEq, Eq, Structural)]
pub struct ViewDecl {
    /// The index of the buffer.
    pub buffer: usize,
    /// Where the range starts in the buffer.
    pub offset: usize,
    /// How many bytes the range holds.
    pub length: usize,
}

/// The declarations of a parsed document, in document order.
#[derive(Clone, Debug, PartialEq, Eq)]
pub struct Document {
    pub buffers: Vec<BufferDecl>,
    pub views: Vec<ViewDecl>,
}

/// A buffer source as a value of specifications.
pub enum SourceModel {
    Bin,
    Uri(Seq<char>),
}

/// A buffer declaration as a value of specifications.
pub struct DeclModel {
    pub length: nat,
    pub source: SourceModel,
}

/// A document as a value of specifications.
pub struct DocumentModel {
    pub buffers: Seq<DeclModel>,
    pub views: Seq<ViewDecl>,
}

impl View for BufferSource {
    type V = SourceModel;

    open spec fn view(&self) -> SourceModel {
        match self {
            BufferSource::Bin => SourceModel::Bin,
            BufferSource::Uri(uri) => SourceModel::Uri(uri@),
        }
    }
}

impl View for BufferDecl {
    type V = DeclModel;

    open spec fn view(&self) -> DeclModel {
        DeclModel { length: self.length as nat, source: self.source@ }
    }
}

impl View for Document {
    type V = DocumentModel;

    open spec fn view(&self) -> DocumentModel {
        DocumentModel {
            buffers: Seq::new(self.buffers@.len(), |i: int| self.buffers@[i]@),
            views: self.views@,
        }
    }
}

/// What `gltf::json::deserialize::from_slice` reads from a JSON text about the
/// positions of its meshes: the number of accessors, and for each primitive
/// of each mesh, in document order, the accessor that its `POSITION`
/// attribute names, if it has that attribute. `None` where the text does not
/// deserialize.
pub uninterp spec fn position_claims(json: Seq<u8>) -> Option<(usize, Seq<Option<usize>>)>;

/// `gltf::json::deserialize::from_slice` into a `gltf::json::Root`, with the
/// number of its accessors and the `POSITION` accessor of each primitive
/// copied out. The outcome is a function of the text alone, named
/// `position_claims`.
#[verifier::external_body]
fn read_position_claims(json: &[u8]) -> (r: Option<(usize, Vec<Option<usize>>)>)
    ensures
        r matches Some(claims) ==> position_claims(json@) == Some((claims.0, claims.1@)),
        r.is_none() ==> position_claims(json@).is_none(),
{
    let root: gltf::json::Root = gltf::json::deserialize::from_slice(json).ok()?;
    let key = gltf::json::validation::Checked::Valid(gltf::json::mesh::Semantic::Positions);
    let primitives = root.meshes.iter().flat_map(|mesh| mesh.primitives.iter());
    let claims = primitives.map(|p| p.attributes.get(&key).map(|accessor| accessor.value()));
    Some((root.accessors.len(), claims.collect()))
}

/// Every accessor that a list of claims names is one of the first `accessors`.
pub open spec fn claims_in_range(accessors: usize, claims: Seq<Option<usize>>) -> bool {
    forall|i: int|
        0 <= i < claims.len() ==> ((#[trigger] claims[i]) matches Some(accessor) ==> accessor
            < accessors)
}

/// Every `POSITION` attribute of the text names an accessor that the text
/// declares. A text that does not deserialize makes no claim.
pub open spec fn positions_in_range(json: Seq<u8>) -> bool {
    position_claims(json) matches Some(claims) ==> claims_in_range(claims.0, claims.1)
}

/// The declarations that `gltf::Gltf::from_slice` reads from a JSON text and
/// accepts, or `None` where it reports an error.
pub uninterp spec fn parsed_document(json: Seq<u8>) -> Option<DocumentModel>;

/// `gltf::Gltf::from_slice` on a JSON text, with the buffers and buffer views
/// of the document it returns copied out in document order. The outcome is a
/// function of the text alone, named `parsed_document`.
///
/// Two kinds of input are left out, on which the crate may abort. On input
/// that starts with the binary magic it would take the text for a container
/// and subtract from the length in its header. While it validates a
/// primitive, it looks up the accessor of the `POSITION` attribute without
/// testing that the document has that many accessors.
#[verifier::external_body]
fn gltf_from_slice(json: &[u8]) -> (r: Result<Document, gltf::Error>)
    requires
        !is_binary_container(json@),
        positions_in_range(json@),
    ensures
        r matches Ok(document) ==> parsed_document(json@) == Some(document@),
        r is Err ==> parsed_document(json@).is_none(),
{
    let gltf = gltf::Gltf::from_slice(json)?;
    let buffers = gltf.buffers().map(|b| BufferDecl {
        length: b.length(),
        source: match b.source() {
            gltf::buffer::Source::Bin => BufferSource::Bin,
            gltf::buffer::Source::Uri(uri) => BufferSource::Uri(uri.to_string()),
        },
    });
    let views = gltf.views().map(|v| ViewDecl {
        buffer: v.buffer().index(),
        offset: v.offset(),
        length: v.length(),
    });
    Ok(Document { buffers: buffers.collect(), views: views.collect() })
}

/// The document a JSON text stands for. A text that starts with the binary
/// magic is no JSON and stands for none; nor does a text in which a
/// `POSITION` attribute names an accessor that is not declared.
pub open spec fn document_of(json: Seq<u8>) -> Option<DocumentModel> {
    if is_binary_container(json) || !positions_in_range(json) {
        None
    } else {
        parsed_document(json)
    }
}

/// Tells whether every accessor that the claims name is declared.
fn all_claims_in_range(accessors: usize, claims: &Vec<Option<usize>>) -> (r: bool)
    ensures
        r == claims_in_range(accessors, claims@),
{
    let mut i: usize = 0;
    while i < claims.len()
        invariant
            i <= claims.len(),
            forall|j: int|
                0 <= j < i ==> ((#[trigger] claims@[j]) matches Some(accessor) ==> accessor
                    < accessors),
        decreases claims.len() - i,
    {
        match claims[i] {
            Some(accessor) => {
                if accessor >= accessors {
                    return false;
                }
            },
            None => {},
        }
        i = i + 1;
    }
    true
}

/// Parses the JSON text of an asset into its declarations.
pub fn parse_document(json: &[u8]) -> (r: Result<Document, ImportError>)
    ensures
        r matches Ok(document) ==> document_of(json@) == Some(document@),
        r matches Err(e) ==> e == ImportError::MalformedDocument && document_of(json@).is_none(),
{
    if crate::container::has_binary_magic(json) {
        return Err(ImportError::MalformedDocument);
    }
    match read_position_claims(json) {
        Some(claims) => {
            if !all_claims_in_range(claims.0, &claims.1) {
                return Err(ImportError::MalformedDocument);
            }
        },
        None => {},
    }
    match gltf_from_slice(json) {
        Ok(document) => Ok(document),
        Err(_) => Err(ImportError::MalformedDocument),
    }
}

} // verus!
