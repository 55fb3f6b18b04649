use vstd::prelude::*;

verus! {

// ---------------------------------------------------------------------------
// File names of the pipeline's intermediate and output files.

/// What `Path::file_stem` gives for a path: the file name without its last extension.
pub uninterp spec fn file_stem_of(path: Seq<char>) -> Option<Seq<char>>;

/// What `Path::parent` gives for a path: the path without its last component.
pub uninterp spec fn parent_of(path: Seq<char>) -> Option<Seq<char>>;

/// What `Path::extension` gives for a path: the last extension of the file name.
pub uninterp spec fn extension_of(path: Seq<char>) -> Option<Seq<char>>;

/// How an optional string is seen in contracts.
pub open spec fn option_view(o: Option<String>) -> Option<Seq<char>> {
    match o {
        Some(s) => Some(s@),
        None => None,
    }
}

/// Trusted: `Path::file_stem` of the path, as a string. Its result is a function of the
/// path alone, named `file_stem_of`; for a path made from a `&str` it is valid UTF-8.
#[verifier::external_body]
fn path_file_stem(path: &str) -> (r: Option<String>)
    ensures
        option_view(r) == file_stem_of(path@),
{
    match std::path::Path::new(path).file_stem() {
        Some(s) => Some(s.to_string_lossy().into_owned()),
        None => None,
    }
}

/// Trusted: `Path::parent` of the path, as a string. Its result is a function of the path
/// alone, named `parent_of`.
#[verifier::external_body]
fn path_parent(path: &str) -> (r: Option<String>)
    ensures
        option_view(r) == parent_of(path@),
{
    match std::path::Path::new(path).parent() {
        Some(p) => Some(p.to_string_lossy().into_owned()),
        None => None,
    }
}

/// Trusted: `Path::extension` of the path, as a string. Its result is a function of the
/// path alone, named `extension_of`.
#[verifier::external_body]
fn path_extension(path: &str) -> (r: Option<String>)
    ensures
        option_view(r) == extension_of(path@),
{
    match std::path::Path::new(path).extension() {
        Some(e) => Some(e.to_string_lossy().into_owned()),
        None => None,
    }
}

/// The path with its extension replaced: the parent directory (when there is one),
/// `/`, the file stem, then the new extension.
pub open spec fn spec_replace_extension(path: Seq<char>, new_ext: Seq<char>) -> Seq<char> {
    let stem = file_stem_of(path)->Some_0;
    let parent = match parent_of(path) {
        Some(p) => p,
        None => Seq::empty(),
    };
    if parent.len() == 0 {
        stem + new_ext
    } else {
        parent + "/"@ + stem + new_ext
    }
}

/// Replace the extension of a file path.
pub fn replace_extension(path: &str, new_ext: &str) -> (r: String)
    requires
        file_stem_of(path@) is Some,
    ensures
        r@ == spec_replace_extension(path@, new_ext@),
{
    let stem = match path_file_stem(path) {
        Some(s) => s,
        None => String::new(),
    };
    let parent = match path_parent(path) {
        Some(p) => p,
        None => String::new(),
    };
    let mut out = String::new();
    if parent.as_str().is_empty() {
        out.append(stem.as_str());
        out.append(new_ext);
    } else {
        out.append(parent.as_str());
        out.append("/");
        out.append(stem.as_str());
        out.append(new_ext);
    }
    assert(out@ =~= spec_replace_extension(path@, new_ext@));
    out
}

/// The path with its extension replaced, or `None` when the path names no file.
pub fn try_replace_extension(path: &str, new_ext: &str) -> (r: Option<String>)
    ensures
        option_view(r) == if file_stem_of(path@) is Some {
            Some(spec_replace_extension(path@, new_ext@))
        } else {
            None
        },
{
    if path_file_stem(path).is_none() {
        return None;
    }
    Some(replace_extension(path, new_ext))
}

/// Whether a path names a C source or header file: its extension is `c` or `h`.
pub fn is_c_source(path: &str) -> (b: bool)
    ensures
        b == (extension_of(path@) == Some("c"@) || extension_of(path@) == Some("h"@)),
{
    match path_extension(path) {
        Some(ext) => {
            let c = String::from_str("c");
            let h = String::from_str("h");
            ext == c || ext == h
        },
        None => false,
    }
}

} // verus!
