use gltf_import::location::resolve_external;
use gltf_import::text::{find_first, find_last};

#[test]
fn uri_is_resolved_beside_the_asset() {
    assert_eq!(resolve_external("models/scene.gltf", "data.bin"), "models/data.bin");
}

#[test]
fn nested_directories_are_kept() {
    assert_eq!(resolve_external("a/b/c/scene.gltf", "bin/data.bin"), "a/b/c/bin/data.bin");
}

#[test]
fn bare_file_name_resolves_in_the_current_directory() {
    assert_eq!(resolve_external("scene.gltf", "data.bin"), "./data.bin");
}

#[test]
fn asset_in_the_root_resolves_in_the_root() {
    assert_eq!(resolve_external("/scene.gltf", "data.bin"), "/data.bin");
}

#[test]
fn empty_asset_path_resolves_in_the_current_directory() {
    assert_eq!(resolve_external("", "data.bin"), "./data.bin");
}

#[test]
fn positions_are_counted_in_characters() {
    assert_eq!(resolve_external("mod\u{e8}les/sc\u{e8}ne.gltf", "d.bin"), "mod\u{e8}les/d.bin");
    assert_eq!(find_last("mod\u{e8}les/sc\u{e8}ne.gltf", '/'), Some(7));
}

#[test]
fn first_and_last_occurrence() {
    assert_eq!(find_first("a/b/c", '/'), Some(1));
    assert_eq!(find_last("a/b/c", '/'), Some(3));
    assert_eq!(find_first("abc", '/'), None);
    assert_eq!(find_last("abc", '/'), None);
    assert_eq!(find_first("", '/'), None);
    assert_eq!(find_first("/", '/'), Some(0));
    assert_eq!(find_last("/", '/'), Some(0));
}

#[test]
fn uri_that_starts_at_the_root_is_asked_for_as_it_stands() {
    assert_eq!(resolve_external("models/scene.gltf", "/abs/data.bin"), "/abs/data.bin");
    assert_eq!(resolve_external("scene.gltf", "/data.bin"), "/data.bin");
    assert_eq!(resolve_external("", "/"), "/");
}

#[test]
fn trailing_slashes_of_the_asset_path_are_ignored() {
    assert_eq!(resolve_external("a/b/", "data.bin"), "a/data.bin");
    assert_eq!(resolve_external("a/b///", "data.bin"), "a/data.bin");
    assert_eq!(resolve_external("models/", "data.bin"), "./data.bin");
}

#[test]
fn repeated_slashes_before_the_file_name_are_one() {
    assert_eq!(resolve_external("a//scene.gltf", "data.bin"), "a/data.bin");
    assert_eq!(resolve_external("a/b///scene.gltf", "data.bin"), "a/b/data.bin");
    assert_eq!(resolve_external("//scene.gltf", "data.bin"), "/data.bin");
}

#[test]
fn the_root_itself_has_no_directory() {
    assert_eq!(resolve_external("/", "data.bin"), "./data.bin");
    assert_eq!(resolve_external("///", "data.bin"), "./data.bin");
}

#[test]
fn empty_uri_names_the_directory() {
    assert_eq!(resolve_external("models/scene.gltf", ""), "models/");
}
