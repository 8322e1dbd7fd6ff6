use gltf_import::document::parse_document;
use gltf_import::{BufferDecl, BufferSource, Document, ImportError, ViewDecl};

#[test]
fn reads_buffers_and_views_in_document_order() {
    let json = br#"{
        "asset": {"version": "2.0"},
        "buffers": [
            {"byteLength": 3, "uri": "data:application/octet-stream;base64,AAEC"},
            {"byteLength": 8},
            {"byteLength": 16, "uri": "mesh.bin"}
        ],
        "bufferViews": [
            {"buffer": 2, "byteOffset": 4, "byteLength": 12},
            {"buffer": 0, "byteLength": 3}
        ]
    }"#;
    let expected = Document {
        buffers: vec![
            BufferDecl {
                length: 3,
                source: BufferSource::Uri("data:application/octet-stream;base64,AAEC".to_string()),
            },
            BufferDecl { length: 8, source: BufferSource::Bin },
            BufferDecl { length: 16, source: BufferSource::Uri("mesh.bin".to_string()) },
        ],
        views: vec![
            ViewDecl { buffer: 2, offset: 4, length: 12 },
            ViewDecl { buffer: 0, offset: 0, length: 3 },
        ],
    };
    assert_eq!(parse_document(json), Ok(expected));
}

#[test]
fn document_without_buffers_is_valid() {
    let json = br#"{"asset": {"version": "2.0"}}"#;
    assert_eq!(parse_document(json), Ok(Document { buffers: vec![], views: vec![] }));
}

#[test]
fn text_that_is_no_json_is_malformed() {
    assert_eq!(parse_document(b"not json"), Err(ImportError::MalformedDocument));
    assert_eq!(parse_document(b""), Err(ImportError::MalformedDocument));
}

#[test]
fn json_without_asset_is_malformed() {
    assert_eq!(parse_document(br#"{"buffers": []}"#), Err(ImportError::MalformedDocument));
}

#[test]
fn view_of_an_undeclared_buffer_is_malformed() {
    let json = br#"{
        "asset": {"version": "2.0"},
        "buffers": [{"byteLength": 3}],
        "bufferViews": [{"buffer": 5, "byteLength": 1}]
    }"#;
    assert_eq!(parse_document(json), Err(ImportError::MalformedDocument));
}

#[test]
fn text_with_the_binary_magic_is_malformed() {
    assert_eq!(
        parse_document(b"glTF\x02\x00\x00\x00\x00\x00\x00\x00"),
        Err(ImportError::MalformedDocument)
    );
    assert_eq!(parse_document(b"glTF"), Err(ImportError::MalformedDocument));
}

#[test]
fn position_of_an_undeclared_accessor_is_malformed() {
    let json = br#"{"asset":{"version":"2.0"},"meshes":[{"primitives":[{"attributes":{"POSITION":5}}]}]}"#;
    assert_eq!(parse_document(json), Err(ImportError::MalformedDocument));
}

#[test]
fn position_just_past_the_accessors_is_malformed() {
    let json = br#"{
        "asset": {"version": "2.0"},
        "accessors": [
            {"componentType": 5126, "count": 1, "type": "VEC3", "min": [0, 0, 0], "max": [1, 1, 1]}
        ],
        "meshes": [
            {"primitives": [{"attributes": {"POSITION": 0}}]},
            {"primitives": [{"attributes": {"NORMAL": 0}}, {"attributes": {"POSITION": 1}}]}
        ]
    }"#;
    assert_eq!(parse_document(json), Err(ImportError::MalformedDocument));
}

#[test]
fn position_of_a_declared_accessor_is_accepted() {
    let json = br#"{
        "asset": {"version": "2.0"},
        "accessors": [
            {"bufferView": 0, "componentType": 5126, "count": 1, "type": "VEC3",
             "min": [0, 0, 0], "max": [1, 1, 1]}
        ],
        "buffers": [{"byteLength": 12, "uri": "mesh.bin"}],
        "bufferViews": [{"buffer": 0, "byteLength": 12}],
        "meshes": [
            {"primitives": [{"attributes": {"POSITION": 0}}]},
            {"primitives": [{"attributes": {"POSITION": 0, "NORMAL": 0}}]}
        ]
    }"#;
    let expected = Document {
        buffers: vec![BufferDecl { length: 12, source: BufferSource::Uri("mesh.bin".to_string()) }],
        views: vec![ViewDecl { buffer: 0, offset: 0, length: 12 }],
    };
    assert_eq!(parse_document(json), Ok(expected));
}
