//! File-system paths (`std::path::PathBuf`), carried as opaque values.

use vstd::prelude::*;

verus! {

/// `std::path::PathBuf`, held opaquely.
#[verifier::external_type_specification]
#[verifier::external_body]
pub struct ExPathBuf(std::path::PathBuf);

/// `PathBuf::new()`: the empty path, the same path `PathBuf::from("")`
/// gives.
pub assume_specification[ std::path::PathBuf::new ]() -> (r: std::path::PathBuf)
    ensures
        r == path_of(""@);

/// What `Path::join` gives for a base path and another path.
pub uninterp spec fn path_joined(base: std::path::PathBuf, rel: std::path::PathBuf) -> std::path::PathBuf;

/// `base.join(rel)` (`Path::join`); the result is named `path_joined`.
#[verifier::external_body]
pub fn join_path(base: &std::path::PathBuf, rel: &std::path::PathBuf) -> (r: std::path::PathBuf)
    ensures
        r == path_joined(*base, *rel),
{
    base.join(rel)
}

/// Whether a path is absolute (`Path::is_absolute`).
pub uninterp spec fn absolute(p: std::path::PathBuf) -> bool;

/// `p.is_absolute()`.
#[verifier::external_body]
pub fn is_absolute(p: &std::path::PathBuf) -> (r: bool)
    ensures
        r == absolute(*p),
{
    p.is_absolute()
}

/// Whether two paths are equal as `PathBuf`s (component by component).
pub uninterp spec fn same_path(a: std::path::PathBuf, b: std::path::PathBuf) -> bool;

/// `a == b` for paths.
#[verifier::external_body]
pub fn paths_equal(a: &std::path::PathBuf, b: &std::path::PathBuf) -> (r: bool)
    ensures
        r == same_path(*a, *b),
{
    a == b
}

/// What `Path::with_extension` gives.
pub uninterp spec fn path_with_ext(p: std::path::PathBuf, ext: Seq<char>) -> std::path::PathBuf;

/// `p.with_extension(ext)`.
#[verifier::external_body]
pub fn with_extension(p: &std::path::PathBuf, ext: &str) -> (r: std::path::PathBuf)
    ensures
        r == path_with_ext(*p, ext@),
{
    p.with_extension(ext)
}

/// What `PathBuf::push` makes of a path and another path.
pub uninterp spec fn path_pushed(p: std::path::PathBuf, seg: std::path::PathBuf) -> std::path::PathBuf;

/// `p.push(seg)`.
#[verifier::external_body]
pub fn push_path(p: &mut std::path::PathBuf, seg: &std::path::PathBuf)
    ensures
        *final(p) == path_pushed(*old(p), *seg),
{
    p.push(seg)
}

/// What `PathBuf::pop` leaves of a path.
pub uninterp spec fn path_popped(p: std::path::PathBuf) -> std::path::PathBuf;

/// `p.pop()` (whether it removed anything is not used).
#[verifier::external_body]
pub fn pop_path(p: &mut std::path::PathBuf)
    ensures
        *final(p) == path_popped(*old(p)),
{
    p.pop();
}

/// What `Path::parent` gives.
pub uninterp spec fn path_parent(p: std::path::PathBuf) -> Option<std::path::PathBuf>;

/// `p.parent()`, as an owned path.
#[verifier::external_body]
pub fn parent_of(p: &std::path::PathBuf) -> (r: Option<std::path::PathBuf>)
    ensures
        r == path_parent(*p),
{
    p.parent().map(|q| q.to_path_buf())
}

/// One component of a path: `..`, or any other component as a path.
#[derive(Debug)]
pub enum PathPiece {
    Parent,
    Part(std::path::PathBuf),
}

/// What `Path::components` gives, `..` told apart from the rest.
pub uninterp spec fn path_pieces(p: std::path::PathBuf) -> Seq<PathPiece>;

/// `p.components()`, each component mapped to a `PathPiece`.
#[verifier::external_body]
pub fn pieces_of(p: &std::path::PathBuf) -> (r: Vec<PathPiece>)
    ensures
        r@ == path_pieces(*p),
{
    p.components().map(|c| match c {
        std::path::Component::ParentDir => PathPiece::Parent,
        other => PathPiece::Part(std::path::PathBuf::from(other.as_os_str())),
    }).collect()
}

/// The text `Path::display` shows for a path.
pub uninterp spec fn path_text(p: std::path::PathBuf) -> Seq<char>;

/// `p.display().to_string()`.
#[verifier::external_body]
pub fn display_path(p: &std::path::PathBuf) -> (r: String)
    ensures
        r@ == path_text(*p),
{
    p.display().to_string()
}

/// What `PathBuf::from` makes of a string.
pub uninterp spec fn path_of(s: Seq<char>) -> std::path::PathBuf;

/// `PathBuf::from(s)`; the result is named `path_of`.
#[verifier::external_body]
pub fn path_from_str(s: &str) -> (r: std::path::PathBuf)
    ensures
        r == path_of(s@),
{
    std::path::PathBuf::from(s)
}

/// Copies a path (`<PathBuf as Clone>::clone`); the copy is the same path.
#[verifier::external_body]
pub fn clone_path(p: &std::path::PathBuf) -> (r: std::path::PathBuf)
    ensures
        r == *p,
{
    p.clone()
}

} // verus!
