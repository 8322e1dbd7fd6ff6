//! What resolving the buffers of a document comes to, said for the document
//! as a whole, and the proof that resolution step by step arrives there.
//!
//! Each buffer has an outcome of its own: the bytes its source gives, or the
//! error that source ends in. No outcome depends on what another buffer
//! holds. The one thing buffers share is the embedded binary chunk, which
//! goes to the first buffer that asks for it. The resolution of the document
//! is the outcome of every buffer, or the first error in document order.

use crate::data_uri::{data_uri_bytes, is_data_uri, DataUriError};
use crate::document::{DeclModel, SourceModel};
use crate::error::ImportError;
use crate::location::external_path;
use crate::resolver::{advance, check_length, supply, ProgressModel, ResolutionState};
use vstd::prelude::*;

verus! {

/// The files that a byte source holds, by path. A path outside the map is
/// one that the source cannot supply.
pub type Files = Map<Seq<char>, Seq<u8>>;

/// What the byte source answers for a path.
pub open spec fn fetched(files: Files, path: Seq<char>) -> Option<Seq<u8>> {
    if files.contains_key(path) {
        Some(files[path])
    } else {
        None
    }
}

/// The buffer at `index` asks for the embedded chunk.
pub open spec fn asks_for_chunk(buffers: Seq<DeclModel>, index: int) -> bool {
    0 <= index < buffers.len() && buffers[index].source == SourceModel::Bin
}

/// A buffer before `index` asks for the embedded chunk.
pub open spec fn chunk_taken_before(buffers: Seq<DeclModel>, index: int) -> bool {
    exists|j: int| j < index && #[trigger] asks_for_chunk(buffers, j)
}

/// The bytes that the buffer at `index` gets from its source, when the
/// resolution starts in `start` and external files are as in `files`.
pub open spec fn obtained(start: ResolutionState, files: Files, index: int) -> Result<
    Seq<u8>,
    ImportError,
> {
    let position = index as usize;
    match start.document.buffers[index].source {
        SourceModel::Bin => if start.chunk.is_some() && !chunk_taken_before(
            start.document.buffers,
            index,
        ) {
            Ok(start.chunk.unwrap())
        } else {
            Err(ImportError::UnavailableChunk { index: position })
        },
        SourceModel::Uri(uri) => if is_data_uri(uri) {
            match data_uri_bytes(uri) {
                Ok(bytes) => Ok(bytes),
                Err(DataUriError::MissingComma) => Err(
                    ImportError::MalformedDataUri { index: position },
                ),
                Err(DataUriError::InvalidBase64) => Err(
                    ImportError::Base64Decode { index: position },
                ),
            }
        } else {
            match fetched(files, external_path(start.asset_path, uri)) {
                Some(bytes) => Ok(bytes),
                None => Err(ImportError::ExternalRead { index: position }),
            }
        },
    }
}

/// The outcome of the buffer at `index`: the bytes it obtained, unless they
/// are fewer than it declares.
pub open spec fn outcome(start: ResolutionState, files: Files, index: int) -> Result<
    Seq<u8>,
    ImportError,
> {
    match obtained(start, files, index) {
        Ok(bytes) => if bytes.len() < start.document.buffers[index].length {
            Err(ImportError::LengthMismatch { index: index as usize })
        } else {
            Ok(bytes)
        },
        Err(e) => Err(e),
    }
}

/// Every buffer before `index` resolves.
pub open spec fn resolves_before(start: ResolutionState, files: Files, index: int) -> bool {
    forall|j: int| 0 <= j < index ==> (#[trigger] outcome(start, files, j)).is_ok()
}

/// The buffer at `index` is the first in document order that fails.
pub open spec fn is_first_failure(start: ResolutionState, files: Files, index: int) -> bool {
    &&& 0 <= index < start.document.buffers.len()
    &&& outcome(start, files, index).is_err()
    &&& resolves_before(start, files, index)
}

/// The resolution of the whole document: the bytes of every buffer, or the
/// error of the first buffer that fails.
pub open spec fn resolution(start: ResolutionState, files: Files) -> Result<
    Seq<Seq<u8>>,
    ImportError,
> {
    if exists|k: int| is_first_failure(start, files, k) {
        let k = choose|k: int| is_first_failure(start, files, k);
        Err(outcome(start, files, k)->Err_0)
    } else {
        Ok(
            Seq::new(
                start.document.buffers.len(),
                |i: int| outcome(start, files, i)->Ok_0,
            ),
        )
    }
}

/// If the buffer at `index` is the first that fails, the resolution ends in
/// its error.
pub proof fn lemma_first_failure_decides(start: ResolutionState, files: Files, index: int)
    requires
        is_first_failure(start, files, index),
    ensures
        resolution(start, files) == Err::<Seq<Seq<u8>>, ImportError>(
            outcome(start, files, index)->Err_0,
        ),
{
    let k = choose|k: int| is_first_failure(start, files, k);
    assert(is_first_failure(start, files, k));
    if k < index {
        assert(outcome(start, files, k).is_ok());
    } else if index < k {
        assert(outcome(start, files, index).is_ok());
    }
}

/// If every buffer resolves, the resolution is the bytes of each, in order.
pub proof fn lemma_all_resolve(start: ResolutionState, files: Files)
    requires
        resolves_before(start, files, start.document.buffers.len() as int),
    ensures
        resolution(start, files) == Ok::<Seq<Seq<u8>>, ImportError>(
            Seq::new(start.document.buffers.len(), |i: int| outcome(start, files, i)->Ok_0),
        ),
{
    assert forall|k: int| !is_first_failure(start, files, k) by {
        if 0 <= k < start.document.buffers.len() {
            assert(outcome(start, files, k).is_ok());
        }
    }
}

/// `state` is where resolving the first buffers of `start` leads, with
/// external files as in `files`: the buffers resolved hold their outcomes,
/// and the embedded chunk is still there unless one of them asked for it.
pub open spec fn reached(start: ResolutionState, files: Files, state: ResolutionState) -> bool {
    &&& state.document == start.document
    &&& state.asset_path == start.asset_path
    &&& state.resolved.len() <= start.document.buffers.len()
    &&& forall|j: int|
        0 <= j < state.resolved.len() ==> #[trigger] outcome(start, files, j) == Ok::<
            Seq<u8>,
            ImportError,
        >(state.resolved[j])
    &&& state.chunk == if chunk_taken_before(start.document.buffers, state.cursor()) {
        None
    } else {
        start.chunk
    }
}

/// What a step reports is what the resolution of the document comes to: a
/// result is the resolution, and a wait stands at an external buffer with
/// every earlier buffer resolved to its outcome.
pub open spec fn agrees(start: ResolutionState, files: Files, progress: ProgressModel) -> bool {
    match progress {
        ProgressModel::Read(state) => reached(start, files, state) && state.awaits_file(),
        ProgressModel::Done(document, resolved) => document == start.document && resolution(
            start,
            files,
        ) == Ok::<Seq<Seq<u8>>, ImportError>(resolved),
        ProgressModel::Failed(e) => resolution(start, files) == Err::<Seq<Seq<u8>>, ImportError>(e),
    }
}

/// Resolution starts in a state that it has reached.
pub proof fn lemma_start_is_reached(start: ResolutionState, files: Files)
    requires
        start.resolved.len() == 0,
    ensures
        reached(start, files, start),
{
    assert(!chunk_taken_before(start.document.buffers, 0)) by {
        assert forall|j: int| j < 0 implies !asks_for_chunk(start.document.buffers, j) by {}
    }
}

/// Taking the bytes of the next buffer keeps the state one that resolution
/// reaches, provided the bytes are the ones its source gives.
proof fn lemma_step_is_reached(
    start: ResolutionState,
    files: Files,
    state: ResolutionState,
    bytes: Seq<u8>,
)
    requires
        reached(start, files, state),
        state.cursor() < start.document.buffers.len(),
        obtained(start, files, state.cursor()) == Ok::<Seq<u8>, ImportError>(bytes),
    ensures
        bytes.len() < state.current().length ==> resolution(start, files) == Err::<
            Seq<Seq<u8>>,
            ImportError,
        >(ImportError::LengthMismatch { index: state.cursor() as usize }),
        bytes.len() >= state.current().length ==> reached(
            start,
            files,
            ResolutionState {
                chunk: if state.current().source == SourceModel::Bin {
                    None
                } else {
                    state.chunk
                },
                resolved: state.resolved.push(bytes),
                ..state
            },
        ),
{
    let k = state.cursor();
    let buffers = start.document.buffers;
    assert(resolves_before(start, files, k)) by {
        assert forall|j: int| 0 <= j < k implies (#[trigger] outcome(start, files, j)).is_ok() by {
            assert(outcome(start, files, j) == Ok::<Seq<u8>, ImportError>(state.resolved[j]));
        }
    }
    if bytes.len() < state.current().length {
        lemma_first_failure_decides(start, files, k);
    } else {
        let next = ResolutionState {
            chunk: if state.current().source == SourceModel::Bin {
                None
            } else {
                state.chunk
            },
            resolved: state.resolved.push(bytes),
            ..state
        };
        assert forall|j: int| 0 <= j < next.resolved.len() implies #[trigger] outcome(
            start,
            files,
            j,
        ) == Ok::<Seq<u8>, ImportError>(next.resolved[j]) by {
            if j < k {
                assert(outcome(start, files, j) == Ok::<Seq<u8>, ImportError>(state.resolved[j]));
            }
        }
        if state.current().source == SourceModel::Bin {
            assert(asks_for_chunk(buffers, k));
            assert(chunk_taken_before(buffers, k + 1));
        } else {
            if chunk_taken_before(buffers, k + 1) {
                let j = choose|j: int| j < k + 1 && #[trigger] asks_for_chunk(buffers, j);
                assert(j < k);
                assert(chunk_taken_before(buffers, k));
            }
            if chunk_taken_before(buffers, k) {
                let j = choose|j: int| j < k && #[trigger] asks_for_chunk(buffers, j);
                assert(chunk_taken_before(buffers, k + 1));
            }
        }
    }
}

/// Resolving on from a state that resolution has reached reports what the
/// resolution of the document comes to.
pub proof fn lemma_advance_agrees(start: ResolutionState, files: Files, state: ResolutionState)
    requires
        reached(start, files, state),
    ensures
        agrees(start, files, advance(state)),
    decreases start.document.buffers.len() - state.resolved.len(),
{
    let k = state.cursor();
    let buffers = start.document.buffers;
    assert(resolves_before(start, files, k)) by {
        assert forall|j: int| 0 <= j < k implies (#[trigger] outcome(start, files, j)).is_ok() by {
            assert(outcome(start, files, j) == Ok::<Seq<u8>, ImportError>(state.resolved[j]));
        }
    }
    if k >= buffers.len() {
        lemma_all_resolve(start, files);
        assert(Seq::new(buffers.len(), |i: int| outcome(start, files, i)->Ok_0)
            =~= state.resolved) by {
            assert forall|i: int| 0 <= i < buffers.len() implies outcome(start, files, i)->Ok_0
                == state.resolved[i] by {
                assert(outcome(start, files, i) == Ok::<Seq<u8>, ImportError>(state.resolved[i]));
            }
        }
    } else {
        match state.current().source {
            SourceModel::Bin => match state.chunk {
                None => {
                    lemma_first_failure_decides(start, files, k);
                },
                Some(chunk) => {
                    lemma_step_is_reached(start, files, state, chunk);
                    match check_length(state.without_chunk(), chunk) {
                        Ok(next) => {
                            lemma_advance_agrees(start, files, next);
                        },
                        Err(e) => {},
                    }
                },
            },
            SourceModel::Uri(uri) => {
                if is_data_uri(uri) {
                    match data_uri_bytes(uri) {
                        Ok(bytes) => {
                            lemma_step_is_reached(start, files, state, bytes);
                            match check_length(state, bytes) {
                                Ok(next) => {
                                    lemma_advance_agrees(start, files, next);
                                },
                                Err(e) => {},
                            }
                        },
                        Err(e) => {
                            lemma_first_failure_decides(start, files, k);
                        },
                    }
                }
            },
        }
    }
}

/// Supplying what the byte source holds for the awaited file reports what
/// the resolution of the document comes to.
pub proof fn lemma_supply_agrees(start: ResolutionState, files: Files, state: ResolutionState)
    requires
        reached(start, files, state),
        state.awaits_file(),
    ensures
        agrees(start, files, supply(state, fetched(files, state.pending_path()))),
{
    let k = state.cursor();
    assert(resolves_before(start, files, k)) by {
        assert forall|j: int| 0 <= j < k implies (#[trigger] outcome(start, files, j)).is_ok() by {
            assert(outcome(start, files, j) == Ok::<Seq<u8>, ImportError>(state.resolved[j]));
        }
    }
    match fetched(files, state.pending_path()) {
        None => {
            lemma_first_failure_decides(start, files, k);
        },
        Some(bytes) => {
            lemma_step_is_reached(start, files, state, bytes);
            match check_length(state, bytes) {
                Ok(next) => {
                    lemma_advance_agrees(start, files, next);
                },
                Err(e) => {},
            }
        },
    }
}

/// If any buffer fails, the resolution fails: with the error of that buffer
/// or of an earlier one.
pub proof fn lemma_failure_fails_resolution(start: ResolutionState, files: Files, index: int)
    requires
        0 <= index < start.document.buffers.len(),
        outcome(start, files, index).is_err(),
    ensures
        resolution(start, files).is_err(),
    decreases index,
{
    if resolves_before(start, files, index) {
        lemma_first_failure_decides(start, files, index);
    } else {
        let j = choose|j: int| 0 <= j < index && !(#[trigger] outcome(start, files, j)).is_ok();
        lemma_failure_fails_resolution(start, files, j);
    }
}

/// A resolution that succeeds holds one byte sequence for each declared
/// buffer, each the outcome of its buffer and at least as long as declared.
pub proof fn lemma_resolution_is_aligned(start: ResolutionState, files: Files)
    requires
        resolution(start, files).is_ok(),
    ensures
        resolution(start, files)->Ok_0.len() == start.document.buffers.len(),
        forall|i: int|
            0 <= i < start.document.buffers.len() ==> outcome(start, files, i) == Ok::<
                Seq<u8>,
                ImportError,
            >(#[trigger] resolution(start, files)->Ok_0[i]),
        forall|i: int|
            0 <= i < start.document.buffers.len() ==> (#[trigger] resolution(
                start,
                files,
            )->Ok_0[i]).len() >= start.document.buffers[i].length,
{
    assert forall|i: int| 0 <= i < start.document.buffers.len() implies (#[trigger] outcome(
        start,
        files,
        i,
    )).is_ok() by {
        if outcome(start, files, i).is_err() {
            lemma_failure_fails_resolution(start, files, i);
        }
    }
    lemma_all_resolve(start, files);
}

/// A buffer is given inline: by a data URI that decodes to at least as many
/// bytes as the buffer declares.
pub open spec fn is_inline(decl: DeclModel) -> bool {
    &&& decl.source matches SourceModel::Uri(uri)
    &&& is_data_uri(uri)
    &&& data_uri_bytes(uri) matches Ok(bytes)
    &&& bytes.len() >= decl.length
}

/// The bytes of a buffer given inline.
pub open spec fn inline_bytes(decl: DeclModel) -> Seq<u8>
    recommends
        is_inline(decl),
{
    match decl.source {
        SourceModel::Uri(uri) => data_uri_bytes(uri)->Ok_0,
        SourceModel::Bin => Seq::empty(),
    }
}

/// A document whose buffers are all given inline resolves at once, without
/// asking for any file: each buffer holds exactly the bytes its data URI
/// decodes to. Its length is the declared one wherever the payload has that
/// length; a longer payload is kept whole.
pub proof fn lemma_inline_data_resolves(start: ResolutionState)
    requires
        start.resolved.len() == 0,
        forall|i: int|
            0 <= i < start.document.buffers.len() ==> is_inline(#[trigger] start.document.buffers[i]),
    ensures
        advance(start) == ProgressModel::Done(
            start.document,
            Seq::new(
                start.document.buffers.len(),
                |i: int| inline_bytes(start.document.buffers[i]),
            ),
        ),
        forall|i: int|
            #![trigger start.document.buffers[i]]
            0 <= i < start.document.buffers.len() && inline_bytes(start.document.buffers[i]).len()
                == start.document.buffers[i].length ==> advance(start)->Done_1[i].len()
                == start.document.buffers[i].length,
{
    let files: Files = Map::empty();
    let buffers = start.document.buffers;
    let expected = Seq::new(buffers.len(), |i: int| inline_bytes(buffers[i]));
    lemma_start_is_reached(start, files);
    lemma_advance_agrees(start, files, start);
    assert forall|i: int| 0 <= i < buffers.len() implies #[trigger] outcome(start, files, i)
        == Ok::<Seq<u8>, ImportError>(inline_bytes(buffers[i])) by {
        assert(is_inline(buffers[i]));
    }
    assert(resolves_before(start, files, buffers.len() as int));
    lemma_all_resolve(start, files);
    assert(Seq::new(buffers.len(), |i: int| outcome(start, files, i)->Ok_0) =~= expected);
    match advance(start) {
        ProgressModel::Read(state) => {
            assert(is_inline(buffers[state.cursor()]));
        },
        ProgressModel::Done(document, resolved) => {},
        ProgressModel::Failed(e) => {},
    }
}

/// Where exactly one buffer asks for the embedded chunk, the chunk covers
/// what that buffer declares and every other buffer resolves, the
/// resolution succeeds and that buffer holds the bytes of the chunk exactly.
pub proof fn lemma_single_claim_gets_chunk(
    start: ResolutionState,
    files: Files,
    index: int,
    chunk: Seq<u8>,
)
    requires
        start.chunk == Some(chunk),
        asks_for_chunk(start.document.buffers, index),
        forall|j: int| #[trigger] asks_for_chunk(start.document.buffers, j) ==> j == index,
        chunk.len() >= start.document.buffers[index].length,
        forall|j: int|
            0 <= j < start.document.buffers.len() && j != index ==> (#[trigger] outcome(
                start,
                files,
                j,
            )).is_ok(),
    ensures
        resolution(start, files).is_ok(),
        resolution(start, files)->Ok_0[index] == chunk,
{
    let buffers = start.document.buffers;
    assert(!chunk_taken_before(buffers, index));
    assert(outcome(start, files, index) == Ok::<Seq<u8>, ImportError>(chunk));
    assert(resolves_before(start, files, buffers.len() as int));
    lemma_all_resolve(start, files);
}

/// Where two buffers ask for the embedded chunk and every buffer before the
/// second resolves, the resolution fails at the second: the chunk is
/// unavailable to it, the first having taken it.
pub proof fn lemma_second_claim_fails(
    start: ResolutionState,
    files: Files,
    first: int,
    second: int,
)
    requires
        first < second,
        asks_for_chunk(start.document.buffers, first),
        asks_for_chunk(start.document.buffers, second),
        resolves_before(start, files, second),
    ensures
        resolution(start, files) == Err::<Seq<Seq<u8>>, ImportError>(
            ImportError::UnavailableChunk { index: second as usize },
        ),
{
    assert(chunk_taken_before(start.document.buffers, second));
    lemma_first_failure_decides(start, files, second);
}

/// The embedded chunk goes to one buffer at most: a document in which two
/// buffers ask for it never resolves.
pub proof fn lemma_chunk_claimed_once(start: ResolutionState, files: Files, a: int, b: int)
    requires
        a != b,
        asks_for_chunk(start.document.buffers, a),
        asks_for_chunk(start.document.buffers, b),
    ensures
        resolution(start, files).is_err(),
{
    let second = if a < b {
        b
    } else {
        a
    };
    assert(chunk_taken_before(start.document.buffers, second)) by {
        if a < b {
            assert(asks_for_chunk(start.document.buffers, a));
        } else {
            assert(asks_for_chunk(start.document.buffers, b));
        }
    }
    lemma_failure_fails_resolution(start, files, second);
}

/// An external buffer whose file holds fewer bytes than the buffer declares
/// fails with a length mismatch: the file does not count as loaded. Where
/// every earlier buffer resolves, that is the error of the resolution.
pub proof fn lemma_short_file_fails(
    start: ResolutionState,
    files: Files,
    index: int,
    uri: Seq<char>,
)
    requires
        0 <= index < start.document.buffers.len(),
        start.document.buffers[index].source == SourceModel::Uri(uri),
        !is_data_uri(uri),
        files.contains_key(external_path(start.asset_path, uri)),
        files[external_path(start.asset_path, uri)].len() < start.document.buffers[index].length,
    ensures
        outcome(start, files, index) == Err::<Seq<u8>, ImportError>(
            ImportError::LengthMismatch { index: index as usize },
        ),
        resolution(start, files).is_err(),
        resolves_before(start, files, index) ==> resolution(start, files) == Err::<
            Seq<Seq<u8>>,
            ImportError,
        >(ImportError::LengthMismatch { index: index as usize }),
{
    lemma_failure_fails_resolution(start, files, index);
    if resolves_before(start, files, index) {
        lemma_first_failure_decides(start, files, index);
    }
}

} // verus!
