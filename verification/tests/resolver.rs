use gltf_import::data_uri::encode_data_uri;
use gltf_import::{
    load_external_buffers, BufferDecl, BufferSource, Buffers, Document, ImportError, Progress,
    ViewDecl,
};
use std::collections::HashMap;

fn inline(length: usize, bytes: &[u8]) -> BufferDecl {
    BufferDecl { length, source: BufferSource::Uri(encode_data_uri(bytes)) }
}

fn external(length: usize, uri: &str) -> BufferDecl {
    BufferDecl { length, source: BufferSource::Uri(uri.to_string()) }
}

fn embedded(length: usize) -> BufferDecl {
    BufferDecl { length, source: BufferSource::Bin }
}

fn document(buffers: Vec<BufferDecl>) -> Document {
    Document { buffers, views: vec![] }
}

fn files(entries: &[(&str, &[u8])]) -> HashMap<String, Vec<u8>> {
    entries.iter().map(|(path, bytes)| (path.to_string(), bytes.to_vec())).collect()
}

/// Runs a resolution to its end against the files given, and records the
/// paths it asked for.
fn run(
    mut progress: Progress,
    source: &HashMap<String, Vec<u8>>,
    asked: &mut Vec<String>,
) -> Result<(Document, Buffers), ImportError> {
    loop {
        progress = match progress {
            Progress::Read(pending) => {
                asked.push(pending.path().to_string());
                let fetched = source.get(pending.path()).cloned();
                pending.supply(fetched)
            }
            Progress::Done(document, buffers) => return Ok((document, buffers)),
            Progress::Failed(e) => return Err(e),
        }
    }
}

fn resolve(
    path: &str,
    buffers: Vec<BufferDecl>,
    bin: Option<Vec<u8>>,
    source: &HashMap<String, Vec<u8>>,
) -> Result<Vec<Vec<u8>>, ImportError> {
    let mut asked = Vec::new();
    run(load_external_buffers(path, document(buffers), bin), source, &mut asked)
        .map(|(_, buffers)| buffers.take())
}

#[test]
fn document_without_buffers_resolves_to_nothing() {
    assert_eq!(resolve("a.gltf", vec![], None, &files(&[])), Ok(vec![]));
}

#[test]
fn inline_buffers_resolve_without_any_read() {
    let buffers = vec![inline(3, &[0, 1, 2]), inline(0, &[]), inline(5, &[9, 8, 7, 6, 5])];
    match load_external_buffers("models/scene.gltf", document(buffers.clone()), None) {
        Progress::Done(doc, resolved) => {
            assert_eq!(doc.buffers, buffers);
            let resolved = resolved.take();
            assert_eq!(resolved, vec![vec![0u8, 1, 2], vec![], vec![9u8, 8, 7, 6, 5]]);
            for (decl, bytes) in buffers.iter().zip(resolved.iter()) {
                assert_eq!(bytes.len(), decl.length);
            }
        }
        other => panic!("expected a complete resolution, got {:?}", other),
    }
}

#[test]
fn longer_inline_payload_is_kept_whole() {
    assert_eq!(
        resolve("a.gltf", vec![inline(2, &[0, 1, 2])], None, &files(&[])),
        Ok(vec![vec![0u8, 1, 2]])
    );
}

#[test]
fn shorter_inline_payload_is_a_length_mismatch() {
    assert_eq!(
        resolve("a.gltf", vec![inline(3, &[0, 1, 2]), inline(4, &[0, 1, 2])], None, &files(&[])),
        Err(ImportError::LengthMismatch { index: 1 })
    );
}

#[test]
fn single_claim_gets_the_embedded_chunk() {
    let chunk = vec![10u8, 20, 30, 40];
    assert_eq!(
        resolve("a.glb", vec![embedded(4)], Some(chunk.clone()), &files(&[])),
        Ok(vec![chunk.clone()])
    );
    assert_eq!(
        resolve(
            "a.glb",
            vec![inline(1, &[7]), embedded(3), inline(2, &[1, 2])],
            Some(chunk.clone()),
            &files(&[])
        ),
        Ok(vec![vec![7u8], chunk, vec![1u8, 2]])
    );
}

#[test]
fn second_claim_of_the_embedded_chunk_fails() {
    assert_eq!(
        resolve("a.glb", vec![embedded(4), embedded(4)], Some(vec![1, 2, 3, 4]), &files(&[])),
        Err(ImportError::UnavailableChunk { index: 1 })
    );
    assert_eq!(
        resolve(
            "a.glb",
            vec![inline(1, &[7]), embedded(2), inline(1, &[8]), embedded(0), embedded(0)],
            Some(vec![1, 2, 3, 4]),
            &files(&[])
        ),
        Err(ImportError::UnavailableChunk { index: 3 })
    );
}

#[test]
fn claim_without_an_embedded_chunk_fails() {
    assert_eq!(
        resolve("a.gltf", vec![inline(1, &[7]), embedded(0)], None, &files(&[])),
        Err(ImportError::UnavailableChunk { index: 1 })
    );
}

#[test]
fn short_embedded_chunk_is_a_length_mismatch() {
    assert_eq!(
        resolve("a.glb", vec![embedded(5), embedded(1)], Some(vec![1, 2, 3, 4]), &files(&[])),
        Err(ImportError::LengthMismatch { index: 0 })
    );
}

#[test]
fn external_buffer_is_asked_for_beside_the_asset() {
    let source = files(&[("models/data.bin", &[1, 2, 3]), ("data.bin", &[9, 9, 9])]);
    let mut asked = Vec::new();
    let progress = load_external_buffers(
        "models/scene.gltf",
        document(vec![external(3, "data.bin")]),
        None,
    );
    match &progress {
        Progress::Read(pending) => {
            assert_eq!(pending.path(), "models/data.bin");
            assert_eq!(pending.index(), 0);
        }
        other => panic!("expected a wait for a file, got {:?}", other),
    }
    let (_, buffers) = run(progress, &source, &mut asked).unwrap();
    assert_eq!(asked, vec!["models/data.bin".to_string()]);
    assert_eq!(buffers.take(), vec![vec![1u8, 2, 3]]);
}

#[test]
fn external_buffers_are_read_in_document_order() {
    let source = files(&[("m/b.bin", &[2, 2]), ("m/a.bin", &[1]), ("m/sub/c.bin", &[3, 3, 3])]);
    let mut asked = Vec::new();
    let buffers = vec![
        external(2, "b.bin"),
        inline(1, &[5]),
        external(1, "a.bin"),
        embedded(2),
        external(3, "sub/c.bin"),
    ];
    let progress = load_external_buffers("m/scene.glb", document(buffers), Some(vec![4, 4]));
    let (_, resolved) = run(progress, &source, &mut asked).unwrap();
    assert_eq!(asked, vec!["m/b.bin", "m/a.bin", "m/sub/c.bin"]);
    assert_eq!(
        resolved.take(),
        vec![vec![2u8, 2], vec![5u8], vec![1u8], vec![4u8, 4], vec![3u8, 3, 3]]
    );
}

#[test]
fn short_file_is_a_length_mismatch() {
    let source = files(&[("models/data.bin", &[1, 2])]);
    assert_eq!(
        resolve("models/scene.gltf", vec![external(3, "data.bin")], None, &source),
        Err(ImportError::LengthMismatch { index: 0 })
    );
}

#[test]
fn longer_file_is_kept_whole() {
    let source = files(&[("models/data.bin", &[1, 2, 3, 4, 5])]);
    assert_eq!(
        resolve("models/scene.gltf", vec![external(3, "data.bin")], None, &source),
        Ok(vec![vec![1u8, 2, 3, 4, 5]])
    );
}

#[test]
fn missing_file_is_a_read_failure() {
    let source = files(&[("data.bin", &[1, 2, 3])]);
    assert_eq!(
        resolve(
            "models/scene.gltf",
            vec![inline(1, &[0]), external(3, "data.bin")],
            None,
            &source
        ),
        Err(ImportError::ExternalRead { index: 1 })
    );
}

#[test]
fn nothing_is_read_after_a_failure() {
    let source = files(&[("m/a.bin", &[1]), ("m/b.bin", &[2])]);
    let mut asked = Vec::new();
    let buffers = vec![external(1, "a.bin"), inline(9, &[0]), external(1, "b.bin")];
    let progress = load_external_buffers("m/scene.gltf", document(buffers), None);
    assert_eq!(
        run(progress, &source, &mut asked).map(|(_, b)| b.take()),
        Err(ImportError::LengthMismatch { index: 1 })
    );
    assert_eq!(asked, vec!["m/a.bin"]);
}

#[test]
fn first_failure_in_document_order_is_reported() {
    let malformed = BufferDecl { length: 0, source: BufferSource::Uri("data:nocomma".into()) };
    let undecodable = BufferDecl { length: 0, source: BufferSource::Uri("data:,@@@@".into()) };
    assert_eq!(
        resolve("a.gltf", vec![malformed.clone(), undecodable.clone()], None, &files(&[])),
        Err(ImportError::MalformedDataUri { index: 0 })
    );
    assert_eq!(
        resolve("a.gltf", vec![inline(0, &[]), undecodable, malformed], None, &files(&[])),
        Err(ImportError::Base64Decode { index: 1 })
    );
}

#[test]
fn views_are_handed_back_with_the_document() {
    let doc = Document {
        buffers: vec![inline(3, &[0, 1, 2])],
        views: vec![ViewDecl { buffer: 0, offset: 1, length: 2 }],
    };
    match load_external_buffers("a.gltf", doc.clone(), None) {
        Progress::Done(document, buffers) => {
            assert_eq!(document, doc);
            assert_eq!(buffers.view(&document.views[0]), Ok(Some(&[1u8, 2][..])));
        }
        other => panic!("expected a complete resolution, got {:?}", other),
    }
}

#[test]
fn external_uri_from_the_root_is_asked_for_as_it_stands() {
    let source = files(&[("/shared/data.bin", &[1, 2, 3]), ("models//shared/data.bin", &[9])]);
    let mut asked = Vec::new();
    let progress = load_external_buffers(
        "models/scene.gltf",
        document(vec![external(3, "/shared/data.bin")]),
        None,
    );
    let (_, buffers) = run(progress, &source, &mut asked).unwrap();
    assert_eq!(asked, vec!["/shared/data.bin"]);
    assert_eq!(buffers.take(), vec![vec![1u8, 2, 3]]);
}
