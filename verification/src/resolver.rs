//! Resolving the buffers of a document, one after the other.
//!
//! Buffers are resolved in document order. A `data:` URI is decoded on the
//! spot and the embedded binary chunk is handed to the first buffer that asks
//! for it; only an external file needs the byte source. So resolution runs as
//! far as it can, stops where it needs a file, names its path, and goes on
//! once the bytes are supplied. The caller does the reading; every decision
//! is taken here.

use crate::buffers::{byte_sequences, Buffers};
use crate::container::chunk_view;
use crate::data_uri::{
    base64_encoded, data_uri_bytes, has_data_scheme, is_data_uri, is_octet_stream_uri,
    lemma_octet_stream_payload, parse_data_uri, DataUriError,
};
use crate::document::{BufferSource, DeclModel, Document, DocumentModel, SourceModel};
use crate::error::ImportError;
use crate::location::{external_path, resolve_external};
use vstd::prelude::*;

verus! {

/// How far the resolution of a document has come.
pub struct ResolutionState {
    /// The document whose buffers are resolved.
    pub document: DocumentModel,
    /// The path of the asset, against which external URIs are resolved.
    pub asset_path: Seq<char>,
    /// The embedded binary chunk, as long as no buffer has taken it.
    pub chunk: Option<Seq<u8>>,
    /// The bytes of the buffers resolved so far, in document order.
    pub resolved: Seq<Seq<u8>>,
}

/// Where a resolution stands after a step.
pub enum ProgressModel {
    /// The next buffer lies in an external file, which has to be read.
    Read(ResolutionState),
    /// Every buffer is resolved.
    Done(DocumentModel, Seq<Seq<u8>>),
    /// A buffer could not be resolved.
    Failed(ImportError),
}

impl ProgressModel {
    /// What holds wherever a resolution stands. One that waits is in order
    /// and stands at an external buffer. One that is done holds one byte
    /// sequence for each declared buffer, none shorter than declared; longer
    /// ones are kept as they came.
    pub open spec fn in_order(self) -> bool {
        match self {
            ProgressModel::Read(state) => state.wf() && state.awaits_file(),
            ProgressModel::Done(document, resolved) => {
                &&& resolved.len() == document.buffers.len()
                &&& forall|i: int|
                    0 <= i < resolved.len() ==> (#[trigger] resolved[i]).len()
                        >= document.buffers[i].length
            },
            ProgressModel::Failed(_) => true,
        }
    }
}

impl ResolutionState {
    /// The index of the buffer that is resolved next.
    pub open spec fn cursor(self) -> int {
        self.resolved.len() as int
    }

    /// The declaration of the buffer that is resolved next.
    pub open spec fn current(self) -> DeclModel {
        self.document.buffers[self.cursor()]
    }

    /// No more buffers are resolved than declared, and each resolved buffer
    /// holds at least as many bytes as its declaration asks for.
    pub open spec fn wf(self) -> bool {
        &&& self.resolved.len() <= self.document.buffers.len() <= usize::MAX
        &&& forall|i: int|
            0 <= i < self.resolved.len() ==> self.resolved[i].len()
                >= self.document.buffers[i].length
    }

    /// The next buffer lies in an external file.
    pub open spec fn awaits_file(self) -> bool {
        &&& self.cursor() < self.document.buffers.len()
        &&& self.current().source matches SourceModel::Uri(uri)
        &&& !is_data_uri(uri)
    }

    /// The path of the file that the next buffer lies in.
    pub open spec fn pending_path(self) -> Seq<char>
        recommends
            self.awaits_file(),
    {
        match self.current().source {
            SourceModel::Uri(uri) => external_path(self.asset_path, uri),
            SourceModel::Bin => Seq::empty(),
        }
    }

    /// The state with the next buffer resolved to `bytes`.
    pub open spec fn with_resolved(self, bytes: Seq<u8>) -> ResolutionState {
        ResolutionState { resolved: self.resolved.push(bytes), ..self }
    }

    /// The state with the embedded chunk taken.
    pub open spec fn without_chunk(self) -> ResolutionState {
        ResolutionState { chunk: None, ..self }
    }
}

/// The state in which resolution starts.
pub open spec fn initial_state(
    document: DocumentModel,
    asset_path: Seq<char>,
    chunk: Option<Seq<u8>>,
) -> ResolutionState {
    ResolutionState { document, asset_path, chunk, resolved: Seq::empty() }
}

/// Checks the bytes obtained for the next buffer against its declaration:
/// fewer bytes than declared are a length mismatch, more are kept as they are.
pub open spec fn check_length(state: ResolutionState, bytes: Seq<u8>) -> Result<
    ResolutionState,
    ImportError,
> {
    if bytes.len() < state.current().length {
        Err(ImportError::LengthMismatch { index: state.cursor() as usize })
    } else {
        Ok(state.with_resolved(bytes))
    }
}

/// Resolves buffers from `state` on, until a file is needed, a buffer fails
/// or none is left.
pub open spec fn advance(state: ResolutionState) -> ProgressModel
    decreases state.document.buffers.len() - state.resolved.len(),
{
    let index = state.cursor() as usize;
    if state.cursor() >= state.document.buffers.len() {
        ProgressModel::Done(state.document, state.resolved)
    } else {
        match state.current().source {
            SourceModel::Bin => match state.chunk {
                None => ProgressModel::Failed(ImportError::UnavailableChunk { index }),
                Some(chunk) => match check_length(state.without_chunk(), chunk) {
                    Ok(next) => advance(next),
                    Err(e) => ProgressModel::Failed(e),
                },
            },
            SourceModel::Uri(uri) => if is_data_uri(uri) {
                match data_uri_bytes(uri) {
                    Err(DataUriError::MissingComma) => ProgressModel::Failed(
                        ImportError::MalformedDataUri { index },
                    ),
                    Err(DataUriError::InvalidBase64) => ProgressModel::Failed(
                        ImportError::Base64Decode { index },
                    ),
                    Ok(bytes) => match check_length(state, bytes) {
                        Ok(next) => advance(next),
                        Err(e) => ProgressModel::Failed(e),
                    },
                }
            } else {
                ProgressModel::Read(state)
            },
        }
    }
}

/// Takes what the byte source gave for the file of the next buffer, `None`
/// where it could not supply it, and resolves on from there.
pub open spec fn supply(state: ResolutionState, fetched: Option<Seq<u8>>) -> ProgressModel {
    match fetched {
        None => ProgressModel::Failed(ImportError::ExternalRead { index: state.cursor() as usize }),
        Some(bytes) => match check_length(state, bytes) {
            Ok(next) => advance(next),
            Err(e) => ProgressModel::Failed(e),
        },
    }
}

/// A step keeps a resolution in order. Where it waits, it stands at an
/// external buffer. Where it is done, it holds one byte sequence for each
/// declared buffer, none shorter than declared. Where it failed, the error
/// names a buffer that was still to be resolved. Buffers resolved before the
/// step stay as they are.
pub proof fn lemma_advance_keeps_order(state: ResolutionState)
    requires
        state.wf(),
    ensures
        match advance(state) {
            ProgressModel::Read(next) => {
                &&& next.wf()
                &&& next.awaits_file()
                &&& next.document == state.document
                &&& next.asset_path == state.asset_path
                &&& state.resolved.is_prefix_of(next.resolved)
            },
            ProgressModel::Done(document, resolved) => {
                &&& document == state.document
                &&& resolved.len() == document.buffers.len()
                &&& state.resolved.is_prefix_of(resolved)
                &&& forall|i: int|
                    0 <= i < resolved.len() ==> (#[trigger] resolved[i]).len()
                        >= document.buffers[i].length
            },
            ProgressModel::Failed(e) => {
                &&& e.spec_buffer_index() matches Some(index)
                &&& state.cursor() <= index < state.document.buffers.len()
            },
        },
    decreases state.document.buffers.len() - state.resolved.len(),
{
    if state.cursor() < state.document.buffers.len() {
        match state.current().source {
            SourceModel::Bin => match state.chunk {
                None => {},
                Some(chunk) => match check_length(state.without_chunk(), chunk) {
                    Ok(next) => {
                        lemma_advance_keeps_order(next);
                    },
                    Err(e) => {},
                },
            },
            SourceModel::Uri(uri) => {
                if is_data_uri(uri) {
                    match data_uri_bytes(uri) {
                        Ok(bytes) => match check_length(state, bytes) {
                            Ok(next) => {
                                lemma_advance_keeps_order(next);
                            },
                            Err(e) => {},
                        },
                        Err(e) => {},
                    }
                }
            },
        }
    }
}

/// Supplying a file keeps a resolution in order, as a step does. A file that
/// holds fewer bytes than its buffer declares is a length mismatch, and a
/// file that the byte source cannot supply is a read failure, both of the
/// buffer that waited.
pub proof fn lemma_supply_keeps_order(state: ResolutionState, fetched: Option<Seq<u8>>)
    requires
        state.wf(),
        state.awaits_file(),
    ensures
        supply(state, fetched) == match fetched {
            None => ProgressModel::Failed(
                ImportError::ExternalRead { index: state.cursor() as usize },
            ),
            Some(bytes) => if bytes.len() < state.current().length {
                ProgressModel::Failed(ImportError::LengthMismatch { index: state.cursor() as usize })
            } else {
                advance(state.with_resolved(bytes))
            },
        },
        fetched matches Some(bytes) ==> bytes.len() >= state.current().length
            ==> state.with_resolved(bytes).wf(),
{
}

/// The buffer is given inline, as the octet-stream data URI of `bytes`, and
/// `bytes` are at least as many as the buffer declares.
pub open spec fn is_octet_stream_of(decl: DeclModel, bytes: Seq<u8>) -> bool {
    &&& decl.source matches SourceModel::Uri(uri)
    &&& is_octet_stream_uri(uri, bytes)
    &&& bytes.len() >= decl.length
}

/// Every buffer of the document is given inline: the buffer at `i` as the
/// octet-stream data URI of `contents[i]`.
pub open spec fn holds_octet_streams(document: DocumentModel, contents: Seq<Seq<u8>>) -> bool {
    &&& contents.len() == document.buffers.len()
    &&& forall|i: int|
        0 <= i < contents.len() ==> #[trigger] is_octet_stream_of(
            document.buffers[i],
            contents[i],
        )
}

/// The buffers resolved are the first of `contents`.
pub open spec fn starts(contents: Seq<Seq<u8>>, resolved: Seq<Seq<u8>>) -> bool {
    resolved.len() <= contents.len() && resolved =~= contents.take(resolved.len() as int)
}

/// The buffer at `index` lies in an external file.
pub open spec fn is_external(buffers: Seq<DeclModel>, index: int) -> bool {
    &&& 0 <= index < buffers.len()
    &&& buffers[index].source matches SourceModel::Uri(uri)
    &&& !is_data_uri(uri)
}

/// No buffer from `from` up to `to`, `to` left out, lies in an external file.
pub open spec fn no_file_between(buffers: Seq<DeclModel>, from: int, to: int) -> bool {
    forall|j: int| from <= j < to ==> !#[trigger] is_external(buffers, j)
}

/// The paths of the external files among the first `count` buffers, in
/// document order: what a resolution has asked for once it has come that far.
pub open spec fn file_paths(buffers: Seq<DeclModel>, asset_path: Seq<char>, count: int) -> Seq<
    Seq<char>,
>
    decreases count,
{
    if count <= 0 {
        Seq::empty()
    } else if is_external(buffers, count - 1) {
        file_paths(buffers, asset_path, count - 1).push(
            external_path(asset_path, buffers[count - 1].source->Uri_0),
        )
    } else {
        file_paths(buffers, asset_path, count - 1)
    }
}

/// Buffers that lie in no external file add no path.
pub proof fn lemma_file_paths_skip(
    buffers: Seq<DeclModel>,
    asset_path: Seq<char>,
    from: int,
    to: int,
)
    requires
        0 <= from <= to,
        no_file_between(buffers, from, to),
    ensures
        file_paths(buffers, asset_path, to) == file_paths(buffers, asset_path, from),
    decreases to - from,
{
    if from < to {
        assert(!is_external(buffers, to - 1));
        lemma_file_paths_skip(buffers, asset_path, from, to - 1);
    }
}

/// The files a resolution asks for are the external files of the document,
/// each once and in document order. A resolution that waits at a buffer has
/// asked for the paths of the external buffers before it and asks for the
/// next one; one that is done has asked for all of them; one that failed has
/// asked for none behind the buffer that failed.
pub proof fn lemma_requests_follow_the_document(state: ResolutionState)
    requires
        state.wf(),
    ensures
        match advance(state) {
            ProgressModel::Read(next) => {
                &&& file_paths(state.document.buffers, state.asset_path, next.cursor())
                    == file_paths(state.document.buffers, state.asset_path, state.cursor())
                &&& file_paths(state.document.buffers, state.asset_path, next.cursor() + 1)
                    == file_paths(state.document.buffers, state.asset_path, state.cursor()).push(
                    next.pending_path(),
                )
            },
            ProgressModel::Done(document, resolved) => file_paths(
                state.document.buffers,
                state.asset_path,
                state.document.buffers.len() as int,
            ) == file_paths(state.document.buffers, state.asset_path, state.cursor()),
            ProgressModel::Failed(e) => {
                &&& e.spec_buffer_index() matches Some(index)
                &&& file_paths(state.document.buffers, state.asset_path, index + 1) == file_paths(
                    state.document.buffers,
                    state.asset_path,
                    state.cursor(),
                )
            },
        },
{
    let buffers = state.document.buffers;
    lemma_advance_asks_in_order(state);
    lemma_advance_keeps_order(state);
    match advance(state) {
        ProgressModel::Read(next) => {
            lemma_file_paths_skip(buffers, state.asset_path, state.cursor(), next.cursor());
        },
        ProgressModel::Done(document, resolved) => {
            lemma_file_paths_skip(buffers, state.asset_path, state.cursor(), buffers.len() as int);
        },
        ProgressModel::Failed(e) => {
            lemma_file_paths_skip(
                buffers,
                state.asset_path,
                state.cursor(),
                e.spec_buffer_index()->Some_0 + 1,
            );
        },
    }
}

/// A step asks for the next external file and for no other: where it waits,
/// it stands at the first external buffer from where it started; where it
/// is done, no external buffer was left; where it failed, none stood before
/// the buffer that failed. So the files are asked for one by one, in the
/// order in which the document declares their buffers.
pub proof fn lemma_advance_asks_in_order(state: ResolutionState)
    requires
        state.wf(),
    ensures
        match advance(state) {
            ProgressModel::Read(next) => {
                &&& state.cursor() <= next.cursor()
                &&& is_external(state.document.buffers, next.cursor())
                &&& next.pending_path() == external_path(
                    state.asset_path,
                    state.document.buffers[next.cursor()].source->Uri_0,
                )
                &&& no_file_between(state.document.buffers, state.cursor(), next.cursor())
            },
            ProgressModel::Done(document, resolved) => no_file_between(
                state.document.buffers,
                state.cursor(),
                state.document.buffers.len() as int,
            ),
            ProgressModel::Failed(e) => {
                &&& e.spec_buffer_index() matches Some(index)
                &&& no_file_between(state.document.buffers, state.cursor(), index + 1)
            },
        },
    decreases state.document.buffers.len() - state.resolved.len(),
{
    let buffers = state.document.buffers;
    let k = state.cursor();
    if k < buffers.len() {
        match state.current().source {
            SourceModel::Bin => match state.chunk {
                None => {},
                Some(chunk) => match check_length(state.without_chunk(), chunk) {
                    Ok(next) => {
                        lemma_advance_asks_in_order(next);
                        lemma_advance_keeps_order(next);
                        assert(!is_external(buffers, k));
                    },
                    Err(e) => {},
                },
            },
            SourceModel::Uri(uri) => {
                if is_data_uri(uri) {
                    match data_uri_bytes(uri) {
                        Ok(bytes) => match check_length(state, bytes) {
                            Ok(next) => {
                                lemma_advance_asks_in_order(next);
                                lemma_advance_keeps_order(next);
                                assert(!is_external(buffers, k));
                            },
                            Err(e) => {},
                        },
                        Err(e) => {},
                    }
                }
            },
        }
    }
}

/// The bytes supplied for a file become the bytes of the buffer that waited
/// for it, as they are, and the next wait stands at the next external
/// buffer: each file is asked for once.
pub proof fn lemma_supply_asks_in_order(state: ResolutionState, bytes: Seq<u8>)
    requires
        state.wf(),
        state.awaits_file(),
    ensures
        match supply(state, Some(bytes)) {
            ProgressModel::Read(next) => {
                &&& state.cursor() < next.cursor()
                &&& next.resolved[state.cursor()] == bytes
                &&& is_external(state.document.buffers, next.cursor())
                &&& no_file_between(state.document.buffers, state.cursor() + 1, next.cursor())
            },
            ProgressModel::Done(document, resolved) => {
                &&& resolved[state.cursor()] == bytes
                &&& no_file_between(
                    state.document.buffers,
                    state.cursor() + 1,
                    state.document.buffers.len() as int,
                )
            },
            ProgressModel::Failed(e) => {
                &&& e.spec_buffer_index() matches Some(index)
                &&& state.cursor() <= index
                &&& no_file_between(state.document.buffers, state.cursor() + 1, index + 1)
            },
        },
{
    if bytes.len() >= state.current().length {
        let next = state.with_resolved(bytes);
        lemma_advance_asks_in_order(next);
        lemma_advance_keeps_order(next);
        assert(next.resolved[state.cursor()] == bytes);
    }
}

/// A resolution that waits for the file of an external buffer.
#[derive(Debug)]
pub struct PendingRead {
    document: Document,
    asset_path: String,
    chunk: Option<Vec<u8>>,
    resolved: Vec<Vec<u8>>,
    path: String,
}

/// Where a resolution stands: it needs a file, it is complete, or it failed.
#[derive(Debug)]
pub enum Progress {
    /// The byte source is to be asked for `PendingRead::path`, and its
    /// answer handed to `PendingRead::supply`.
    Read(PendingRead),
    /// The document and the bytes of each of its buffers.
    Done(Document, Buffers),
    /// The import is aborted. No partial result is kept.
    Failed(ImportError),
}

/// The state that the parts of a running resolution stand for.
pub open spec fn state_of(
    document: Document,
    asset_path: String,
    chunk: Option<Vec<u8>>,
    resolved: Vec<Vec<u8>>,
) -> ResolutionState {
    ResolutionState {
        document: document@,
        asset_path: asset_path@,
        chunk: chunk_view(chunk),
        resolved: byte_sequences(resolved@),
    }
}

impl View for PendingRead {
    type V = ResolutionState;

    closed spec fn view(&self) -> ResolutionState {
        state_of(self.document, self.asset_path, self.chunk, self.resolved)
    }
}

impl View for Progress {
    type V = ProgressModel;

    open spec fn view(&self) -> ProgressModel {
        match self {
            Progress::Read(pending) => ProgressModel::Read(pending@),
            Progress::Done(document, buffers) => ProgressModel::Done(
                document@,
                buffers.contents(),
            ),
            Progress::Failed(e) => ProgressModel::Failed(*e),
        }
    }
}

impl PendingRead {
    /// The resolution is in order and stands at an external buffer, whose
    /// path is the one held.
    #[verifier::type_invariant]
    spec fn inv(self) -> bool {
        let state = state_of(self.document, self.asset_path, self.chunk, self.resolved);
        &&& state.wf()
        &&& state.awaits_file()
        &&& self.path@ == state.pending_path()
    }

    /// The path to ask the byte source for.
    pub fn path(&self) -> (path: &str)
        ensures
            self@.wf(),
            self@.awaits_file(),
            path@ == self@.pending_path(),
    {
        proof {
            use_type_invariant(self);
        }
        self.path.as_str()
    }

    /// The index of the buffer that the file is for.
    pub fn index(&self) -> (index: usize)
        ensures
            index == self@.cursor(),
    {
        self.resolved.len()
    }

    /// Goes on with what the byte source gave for `path`: the bytes of the
    /// file, or `None` where it could not supply them.
    pub fn supply(self, fetched: Option<Vec<u8>>) -> (r: Progress)
        ensures
            r@ == supply(self@, chunk_view(fetched)),
            r@.in_order(),
    {
        proof {
            use_type_invariant(&self);
        }
        let ghost state = self@;
        let PendingRead { document, asset_path, chunk, resolved, path: _ } = self;
        let mut buffers = resolved;
        let index = buffers.len();
        assert(state.current() == document.buffers@[index as int]@);
        match fetched {
            None => Progress::Failed(ImportError::ExternalRead { index }),
            Some(bytes) => {
                if bytes.len() < document.buffers[index].length {
                    return Progress::Failed(ImportError::LengthMismatch { index });
                }
                buffers.push(bytes);
                assert(byte_sequences(buffers@) =~= state.resolved.push(bytes@));
                proof {
                    lemma_advance_keeps_order(state.with_resolved(bytes@));
                }
                resume(document, asset_path, chunk, buffers)
            },
        }
    }
}

/// Resolves the buffers of a document, as far as that goes without the byte
/// source. `bin` is the binary chunk embedded in the asset, if it has one;
/// `base_path` is the path of the asset itself.
pub fn load_external_buffers(base_path: &str, document: Document, bin: Option<Vec<u8>>) -> (r:
    Progress)
    ensures
        r@ == advance(initial_state(document@, base_path@, chunk_view(bin))),
        r@.in_order(),
        forall|contents: Seq<Seq<u8>>| #[trigger]
            holds_octet_streams(document@, contents) ==> r@ == ProgressModel::Done(
                document@,
                contents,
            ),
{
    let resolved: Vec<Vec<u8>> = Vec::new();
    assert(byte_sequences(resolved@) =~= Seq::<Seq<u8>>::empty());
    assert(document.buffers.len() == document@.buffers.len());
    proof {
        lemma_advance_keeps_order(initial_state(document@, base_path@, chunk_view(bin)));
    }
    resume(document, base_path.to_owned(), bin, resolved)
}

/// Resolves buffers until a file is needed, a buffer fails or none is left.
fn resume(
    document: Document,
    asset_path: String,
    chunk: Option<Vec<u8>>,
    resolved: Vec<Vec<u8>>,
) -> (r: Progress)
    requires
        state_of(document, asset_path, chunk, resolved).wf(),
    ensures
        r@ == advance(state_of(document, asset_path, chunk, resolved)),
        forall|contents: Seq<Seq<u8>>|
            resolved@.len() == 0 && #[trigger] holds_octet_streams(document@, contents) ==> r@
                == ProgressModel::Done(document@, contents),
{
    let ghost start = state_of(document, asset_path, chunk, resolved);
    let mut spare = chunk;
    let mut buffers = resolved;
    while buffers.len() < document.buffers.len()
        invariant
            start == state_of(document, asset_path, chunk, resolved),
            state_of(document, asset_path, spare, buffers).wf(),
            advance(state_of(document, asset_path, spare, buffers)) == advance(start),
            forall|contents: Seq<Seq<u8>>|
                resolved@.len() == 0 && #[trigger] holds_octet_streams(document@, contents)
                    ==> starts(contents, byte_sequences(buffers@)),
        decreases document.buffers.len() - buffers.len(),
    {
        let ghost state = state_of(document, asset_path, spare, buffers);
        let index = buffers.len();
        assert(state.current() == document.buffers@[index as int]@);
        proof {
            assert forall|contents: Seq<Seq<u8>>|
                resolved@.len() == 0 && #[trigger] holds_octet_streams(
                    document@,
                    contents,
                ) implies is_octet_stream_of(state.current(), contents[index as int])
                && is_data_uri(state.current().source->Uri_0) by {
                assert(is_octet_stream_of(document@.buffers[index as int], contents[index as int]));
                lemma_octet_stream_payload(base64_encoded(contents[index as int]));
            }
        }
        let bytes = match &document.buffers[index].source {
            BufferSource::Bin => match spare.take() {
                Some(data) => data,
                None => {
                    return Progress::Failed(ImportError::UnavailableChunk { index });
                },
            },
            BufferSource::Uri(uri) => {
                if has_data_scheme(uri.as_str()) {
                    match parse_data_uri(uri.as_str()) {
                        Ok(data) => data,
                        Err(DataUriError::MissingComma) => {
                            return Progress::Failed(ImportError::MalformedDataUri { index });
                        },
                        Err(DataUriError::InvalidBase64) => {
                            return Progress::Failed(ImportError::Base64Decode { index });
                        },
                    }
                } else {
                    let path = resolve_external(asset_path.as_str(), uri.as_str());
                    return Progress::Read(
                        PendingRead { document, asset_path, chunk: spare, resolved: buffers, path },
                    );
                }
            },
        };
        assert forall|contents: Seq<Seq<u8>>|
            resolved@.len() == 0 && #[trigger] holds_octet_streams(
                document@,
                contents,
            ) implies bytes@ == contents[index as int] by {
            assert(is_octet_stream_of(state.current(), contents[index as int]));
        }
        if bytes.len() < document.buffers[index].length {
            return Progress::Failed(ImportError::LengthMismatch { index });
        }
        buffers.push(bytes);
        assert(byte_sequences(buffers@) =~= state.resolved.push(bytes@));
        assert forall|contents: Seq<Seq<u8>>|
            resolved@.len() == 0 && #[trigger] holds_octet_streams(
                document@,
                contents,
            ) implies starts(contents, byte_sequences(buffers@)) by {
            assert(starts(contents, state.resolved));
            assert(bytes@ == contents[index as int]);
        }
    }
    assert forall|contents: Seq<Seq<u8>>|
        resolved@.len() == 0 && #[trigger] holds_octet_streams(
            document@,
            contents,
        ) implies byte_sequences(buffers@) == contents by {
        assert(starts(contents, byte_sequences(buffers@)));
        assert(contents.take(contents.len() as int) =~= contents);
    }
    Progress::Done(document, Buffers::new(buffers))
}

} // verus!
