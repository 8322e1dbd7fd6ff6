//! Where the file of an external buffer lies.
//!
//! The URI of an external buffer is read relative to the directory of the
//! asset that names it, never to the working directory. A URI that starts
//! with `/` is a path of its own and is asked for as it stands. Paths use `/`
//! as their separator on every platform.

use crate::text::{find_last, last_index};
use vstd::prelude::*;
use vstd::std_specs::iter::IteratorSpec;
use vstd::string::{StrSliceExecFns, StringExecFns};

verus! {

/// `end` is where the trailing slashes of `path` start: no `/` stands right
/// before it and nothing but `/` from it on.
pub open spec fn is_trimmed_length(path: Seq<char>, end: int) -> bool {
    &&& 0 <= end <= path.len()
    &&& end > 0 ==> path[end - 1] != '/'
    &&& forall|j: int| end <= j < path.len() ==> path[j] == '/'
}

/// The length of `path` without its trailing slashes.
pub open spec fn trimmed_length(path: Seq<char>) -> int {
    choose|end: int| is_trimmed_length(path, end)
}

/// The path without its trailing slashes, which name the same entry.
pub open spec fn without_trailing_slashes(path: Seq<char>) -> Seq<char> {
    path.take(trimmed_length(path))
}

/// Trailing slashes start at one place only.
pub proof fn lemma_trimmed_length_unique(path: Seq<char>, end: int)
    requires
        is_trimmed_length(path, end),
    ensures
        trimmed_length(path) == end,
{
    let chosen = trimmed_length(path);
    assert(is_trimmed_length(path, chosen));
    if chosen < end {
        assert(path[end - 1] == '/');
    } else if end < chosen {
        assert(path[chosen - 1] == '/');
    }
}

/// The directory that holds the asset. Trailing slashes of the asset path
/// are ignored. What stands before the last `/` of the rest is the
/// directory, again without trailing slashes; it is empty for the root.
/// Where no `/` is left, the asset lies in `.`, the current directory.
pub open spec fn parent_directory(asset_path: Seq<char>) -> Seq<char> {
    let entry = without_trailing_slashes(asset_path);
    match last_index(entry, '/') {
        Some(k) => without_trailing_slashes(entry.take(k)),
        None => seq!['.'],
    }
}

/// The URI is a path from the root.
pub open spec fn is_absolute(uri: Seq<char>) -> bool {
    uri.len() > 0 && uri[0] == '/'
}

/// The path under which the byte source is asked for an external buffer: the
/// URI itself where it starts at the root, else the URI inside the directory
/// of the asset.
pub open spec fn external_path(asset_path: Seq<char>, uri: Seq<char>) -> Seq<char> {
    if is_absolute(uri) {
        uri
    } else {
        parent_directory(asset_path) + seq!['/'] + uri
    }
}

/// Finds where the trailing slashes of a path start, in one pass.
fn trimmed_end(path: &str) -> (end: usize)
    ensures
        is_trimmed_length(path@, end as int),
{
    let n = path.unicode_len();
    let mut it = path.chars();
    let mut end: usize = 0;
    let mut i: usize = 0;
    while i < n
        invariant
            n == path@.len(),
            end <= i <= n,
            it.obeys_prophetic_iter_laws(),
            it.remaining() == path@.skip(i as int),
            end > 0 ==> path@[end - 1] != '/',
            forall|j: int| end <= j < i ==> path@[j] == '/',
        decreases n - i,
    {
        let next = it.next();
        assert(next == Some(path@[i as int]));
        assert(it.remaining() == path@.skip(i as int + 1));
        match next {
            Some(c) => {
                if c != '/' {
                    end = i + 1;
                }
            },
            None => {},
        }
        i = i + 1;
    }
    end
}

/// Tells whether the URI starts with `/`.
fn starts_at_root(uri: &str) -> (r: bool)
    ensures
        r == is_absolute(uri@),
{
    let mut it = uri.chars();
    it.next() == Some('/')
}

/// Resolves the URI of an external buffer against the directory of the asset.
pub fn resolve_external(asset_path: &str, uri: &str) -> (path: String)
    ensures
        path@ == external_path(asset_path@, uri@),
{
    if starts_at_root(uri) {
        return uri.to_owned();
    }
    let end = trimmed_end(asset_path);
    let entry = asset_path.substring_char(0, end);
    proof {
        lemma_trimmed_length_unique(asset_path@, end as int);
    }
    let mut path = match find_last(entry, '/') {
        Some(k) => {
            let before = entry.substring_char(0, k);
            let directory = before.substring_char(0, trimmed_end(before));
            proof {
                lemma_trimmed_length_unique(before@, directory@.len() as int);
            }
            String::from_str(directory)
        },
        None => {
            proof {
                reveal_strlit(".");
            }
            String::from_str(".")
        },
    };
    proof {
        reveal_strlit("/");
    }
    assert(path@ =~= parent_directory(asset_path@));
    path.append("/");
    path.append(uri);
    assert("/"@ =~= seq!['/']);
    path
}

} // verus!
