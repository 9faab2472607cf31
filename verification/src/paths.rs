//! Path operations of the standard library and of `pathdiff`, on strings.
use vstd::prelude::*;
use std::path::{Path, PathBuf};

verus! {

/// What `Path::with_extension("")` makes of a path: the path without the
/// extension of its last component.
pub uninterp spec fn without_extension(path: Seq<char>) -> Seq<char>;

/// Calls `Path::with_extension` with an empty extension. The result is named
/// by `without_extension`, a function of the path's characters alone.
#[verifier::external_body]
pub(crate) fn path_without_extension(path: &str) -> (res: String)
    ensures
        res@ == without_extension(path@),
{
    Path::new(path).with_extension("").to_string_lossy().to_string()
}

/// What `Path::extension` gives for a path, when it is valid text.
pub uninterp spec fn extension_of(path: Seq<char>) -> Option<Seq<char>>;

/// Returns the extension of the last component of `path`, as
/// `Path::extension` does. The result is named by `extension_of`, a function
/// of the path's characters alone.
#[verifier::external_body]
pub fn get_extension_from_filename(path: &str) -> (res: Option<String>)
    ensures
        match res {
            Some(e) => extension_of(path@) == Some(e@),
            None => extension_of(path@) is None,
        },
{
    Path::new(path).extension().and_then(|e| e.to_str()).map(|e| e.to_string())
}

/// What `pathdiff::diff_paths` returns: the path that leads from `base` to
/// `path`, when there is one.
pub uninterp spec fn relative_path(path: Seq<char>, base: Seq<char>) -> Option<Seq<char>>;

/// Calls `pathdiff::diff_paths`. Its result is named by `relative_path`, a
/// function of both paths' characters alone.
#[verifier::external_body]
fn diff_paths(path: &str, base: &str) -> (res: Option<String>)
    ensures
        match res {
            Some(d) => relative_path(path@, base@) == Some(d@),
            None => relative_path(path@, base@) is None,
        },
{
    pathdiff::diff_paths(Path::new(path), Path::new(base)).map(|d| d.to_string_lossy().to_string())
}

/// What `PathBuf::push` makes of a path with another pushed onto it.
pub uninterp spec fn path_pushed(base: Seq<char>, piece: Seq<char>) -> Seq<char>;

/// Calls `PathBuf::push` once, pushing `piece` onto a buffer holding `base`.
/// The result is named by `path_pushed`, a function of the two paths'
/// characters alone.
#[verifier::external_body]
fn push_path(base: &str, piece: &str) -> (res: String)
    ensures
        res@ == path_pushed(base@, piece@),
{
    let mut p = PathBuf::from(base);
    p.push(piece);
    p.to_string_lossy().to_string()
}

/// A location as the database stores it: one that starts with `.` is kept;
/// any other is made relative to `base` (the working directory) and put
/// under `./`. `None` where no relative path leads there.
pub open spec fn relative_location(location: Seq<char>, base: Seq<char>) -> Option<Seq<char>> {
    if location.len() > 0 && location[0] == '.' {
        Some(location)
    } else {
        match relative_path(location, base) {
            Some(d) => Some(path_pushed("."@, d)),
            None => None,
        }
    }
}

/// Makes a location relative to the base directory, as the database stores
/// locations.
pub fn location_relative_to_base(location: &str, base: &str) -> (res: Option<String>)
    ensures
        match res {
            Some(r) => relative_location(location@, base@) == Some(r@),
            None => relative_location(location@, base@) is None,
        },
{
    let c = crate::text::chars_of(location);
    if c.len() > 0 && c[0] == '.' {
        return Some(crate::text::string_of(c.as_slice()));
    }
    match diff_paths(location, base) {
        Some(d) => Some(push_path(".", d.as_str())),
        None => None,
    }
}


/// What `Path::file_name` gives for a path, as text: its last component,
/// or `None` when the path ends in `..` or has no component.
pub uninterp spec fn path_file_name(path: Seq<char>) -> Option<Seq<char>>;

/// Calls `Path::file_name` and converts the name to text lossily. The result
/// is named by `path_file_name`, a function of the path's characters alone.
#[verifier::external_body]
pub fn file_name_of(path: &str) -> (res: Option<String>)
    ensures
        match res {
            Some(n) => path_file_name(path@) == Some(n@),
            None => path_file_name(path@) is None,
        },
{
    Path::new(path).file_name().map(|n| n.to_string_lossy().to_string())
}


/// What `Path::join` makes of a directory and a name, as text.
pub uninterp spec fn path_joined(dir: Seq<char>, name: Seq<char>) -> Seq<char>;

/// Calls `Path::join`. The result is named by `path_joined`, a function of
/// both arguments' characters alone.
#[verifier::external_body]
pub fn join_path(dir: &str, name: &str) -> (res: String)
    ensures
        res@ == path_joined(dir@, name@),
{
    Path::new(dir).join(name).to_string_lossy().to_string()
}

/// Whether `==` on `Path` holds for two paths: their components are equal.
pub uninterp spec fn paths_equal(a: Seq<char>, b: Seq<char>) -> bool;

/// Calls `==` on two `Path`s. The result is named by `paths_equal`, a
/// function of both paths' characters alone.
#[verifier::external_body]
pub fn same_path(a: &str, b: &str) -> (res: bool)
    ensures
        res == paths_equal(a@, b@),
{
    Path::new(a) == Path::new(b)
}

} // verus!
