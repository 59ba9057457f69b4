//! Project manifests: the project's name, entry scene, seed and tick rate,
//! and where `res://` paths point.

use vstd::prelude::*;
use std::path::PathBuf;
use crate::error::{EngineError, EngineResult};
use crate::path::{PathPiece, absolute, path_joined, path_of, path_parent, path_pieces, path_popped, path_pushed,
    is_absolute, join_path, parent_of, path_from_str, pieces_of, pop_path, push_path, clone_path};
use crate::text::{is_prefix, push_str, strip_prefix};
use crate::resource::res_scheme;
use crate::validate::{snippet_text, snippet_around};

verus! {

broadcast use vstd::string::group_string_axioms;

/// The `[project]` table.
#[derive(Debug, Clone)]
pub struct ProjectSection {
    pub name: String,
    pub entry_scene: Option<String>,
    pub seed: Option<u64>,
    pub tick_hz: Option<u32>,
}

/// The `[paths]` table.
#[derive(Debug, Clone)]
pub struct PathsSection {
    pub res_root: Option<String>,
}

/// A project manifest.
#[derive(Debug, Clone)]
pub struct Project {
    pub project: ProjectSection,
    pub paths: PathsSection,
}

/// A manifest resolved against the directory it lives in.
#[derive(Debug)]
pub struct ResolvedProject {
    pub root: PathBuf,
    pub project: ProjectSection,
    pub res_root: PathBuf,
    pub tick_hz: u32,
    pub seed: u64,
}

/// The directory a manifest path lives in (`.` when it has none).
pub open spec fn manifest_root(manifest: PathBuf) -> PathBuf {
    match path_parent(manifest) {
        Some(p) => p,
        None => path_of("."@),
    }
}

fn copy_section(s: &ProjectSection) -> (r: ProjectSection)
    ensures
        r.name@ == s.name@,
        crate::load::opt_view(r.entry_scene) == crate::load::opt_view(s.entry_scene),
        r.seed == s.seed,
        r.tick_hz == s.tick_hz,
{
    ProjectSection {
        name: s.name.clone(),
        entry_scene: match &s.entry_scene {
            Some(e) => Some(e.clone()),
            None => None,
        },
        seed: s.seed,
        tick_hz: s.tick_hz,
    }
}

/// Whether the manifest's resource root is an absolute path.
pub open spec fn root_is_absolute(p: Project) -> bool {
    p.paths.res_root matches Some(rr) && absolute(path_of(rr@))
}

/// Whether the manifest names an entry scene that is not a `res://` URI.
pub open spec fn entry_not_res(p: Project) -> bool {
    p.project.entry_scene matches Some(e) && !is_prefix(res_scheme(), e@)
}

impl Project {
    /// Resolves the manifest at `manifest_path`: `res://` paths live under
    /// `paths.res_root` (which must be relative) inside the manifest's
    /// directory, the entry scene must be a `res://` URI, and the tick
    /// rate and seed default to 60 and 0.
    pub fn resolve(&self, manifest_path: &PathBuf) -> (r: EngineResult<ResolvedProject>)
        ensures
            root_is_absolute(*self) ==> (r matches Err(EngineError::Internal(m))
                && m@ == "paths.res_root must be relative (absolute paths are forbidden): "@ + self.paths.res_root->0@),
            !root_is_absolute(*self) && entry_not_res(*self) ==> (r matches Err(EngineError::Internal(m))
                && m@ == "project.entry_scene must start with \"res://\": got "@ + self.project.entry_scene->0@),
            !root_is_absolute(*self) && !entry_not_res(*self) ==> (r matches Ok(p) && {
                &&& p.root == manifest_root(*manifest_path)
                &&& p.res_root == match self.paths.res_root {
                    Some(rr) => path_joined(manifest_root(*manifest_path), path_of(rr@)),
                    None => manifest_root(*manifest_path),
                }
                &&& p.project.name@ == self.project.name@
                &&& crate::load::opt_view(p.project.entry_scene) == crate::load::opt_view(self.project.entry_scene)
                &&& p.project.seed == self.project.seed
                &&& p.project.tick_hz == self.project.tick_hz
                &&& p.tick_hz == match self.project.tick_hz { Some(t) => t, None => 60 }
                &&& p.seed == match self.project.seed { Some(s) => s, None => 0 }
            }),
    {
        proof { reveal_strlit("."); reveal_strlit("res://"); }
        assert("res://"@ == res_scheme());
        let root = match parent_of(manifest_path) {
            Some(p) => p,
            None => path_from_str("."),
        };
        let res_root = match &self.paths.res_root {
            Some(r) => {
                let rp = path_from_str(r.as_str());
                if is_absolute(&rp) {
                    let mut m = "paths.res_root must be relative (absolute paths are forbidden): ".to_string();
                    push_str(&mut m, r.as_str());
                    return Err(EngineError::Internal(m));
                }
                join_path(&root, &rp)
            },
            None => clone_path(&root),
        };
        match &self.project.entry_scene {
            Some(entry) => {
                match strip_prefix(entry.as_str(), "res://") {
                    Some(_) => {},
                    None => {
                        let mut m = "project.entry_scene must start with \"res://\": got ".to_string();
                        push_str(&mut m, entry.as_str());
                        return Err(EngineError::Internal(m));
                    },
                }
            },
            None => {},
        }
        assert("res://"@ == res_scheme());
        let tick_hz = match self.project.tick_hz { Some(t) => t, None => 60 };
        let seed = match self.project.seed { Some(s) => s, None => 0 };
        Ok(ResolvedProject { root, project: copy_section(&self.project), res_root, tick_hz, seed })
    }
}

/// A path with its `..` components applied: each `..` drops the last
/// component so far, every other component is appended.
pub open spec fn normalized(pieces: Seq<PathPiece>) -> PathBuf
    decreases pieces.len(),
{
    if pieces.len() == 0 {
        path_of(Seq::empty())
    } else {
        match pieces.last() {
            PathPiece::Parent => path_popped(normalized(pieces.drop_last())),
            PathPiece::Part(c) => path_pushed(normalized(pieces.drop_last()), c),
        }
    }
}

fn normalize_path(p: &PathBuf) -> (r: PathBuf)
    ensures
        r == normalized(path_pieces(*p)),
{
    let pieces = pieces_of(p);
    let mut out = PathBuf::new();
    let mut i: usize = 0;
    proof { reveal_strlit(""); assert(""@ =~= Seq::<char>::empty()); }
    while i < pieces.len()
        invariant
            i <= pieces@.len(),
            out == normalized(pieces@.take(i as int)),
        decreases pieces.len() - i,
    {
        assert(pieces@.take(i + 1).drop_last() =~= pieces@.take(i as int));
        match &pieces[i] {
            PathPiece::Parent => pop_path(&mut out),
            PathPiece::Part(c) => push_path(&mut out, c),
        }
        i += 1;
    }
    assert(pieces@.take(pieces@.len() as int) =~= pieces@);
    out
}

impl ResolvedProject {
    /// The file a `res://` URI names under the resource root, with `..`
    /// components applied; `None` for other URIs and for `res://` alone.
    pub fn resolve_res(&self, uri: &str) -> (r: Option<PathBuf>)
        ensures
            if is_prefix(res_scheme(), uri@) && uri@.len() > res_scheme().len() {
                r == Some(normalized(path_pieces(path_joined(self.res_root,
                    path_of(uri@.subrange(res_scheme().len() as int, uri@.len() as int))))))
            } else {
                r is None
            },
    {
        proof { reveal_strlit("res://"); }
        assert("res://"@ == res_scheme());
        let stripped = match strip_prefix(uri, "res://") {
            Some(s) => s,
            None => return None,
        };
        if stripped.as_str().unicode_len() == 0 {
            return None;
        }
        let joined = join_path(&self.res_root, &path_from_str(stripped.as_str()));
        Some(normalize_path(&joined))
    }
}


// ------------------------------------------------ manifest error positions

/// The number of newline bytes in `b`.
pub open spec fn newlines(b: Seq<u8>) -> nat
    decreases b.len(),
{
    if b.len() == 0 { 0 } else { newlines(b.drop_last()) + if b.last() == 10 { 1nat } else { 0nat } }
}

/// The number of bytes in `b` that begin a character (not UTF-8
/// continuation bytes).
pub open spec fn char_starts(b: Seq<u8>) -> nat
    decreases b.len(),
{
    if b.len() == 0 { 0 } else { char_starts(b.drop_last()) + if b.last() < 0x80 || b.last() >= 0xC0 { 1nat } else { 0nat } }
}

/// The position just after the last newline byte of `b`, or 0.
pub open spec fn line_start(b: Seq<u8>) -> nat
    decreases b.len(),
{
    if b.len() == 0 { 0 } else if b.last() == 10 { b.len() } else { line_start(b.drop_last()) }
}

/// The text's bytes up to `byte` (all of them when `byte` is past the end).
pub open spec fn bytes_before(contents: Seq<char>, byte: nat) -> Seq<u8> {
    let b = vstd::utf8::encode_utf8(contents);
    if byte < b.len() { b.take(byte as int) } else { b }
}

/// `byte` is past the end of the text or at the start of a character.
pub open spec fn at_char_boundary(contents: Seq<char>, byte: nat) -> bool {
    let b = vstd::utf8::encode_utf8(contents);
    byte >= b.len() || b[byte as int] < 0x80 || b[byte as int] >= 0xC0
}

/// The 1-based line of byte offset `byte` in `contents`.
pub open spec fn line_of_byte(contents: Seq<char>, byte: nat) -> nat {
    newlines(bytes_before(contents, byte)) + 1
}

/// The 1-based line a byte offset falls on: one more than the newlines
/// before it.
pub fn line_at(contents: &str, byte: usize) -> (r: usize)
    requires
        at_char_boundary(contents@, byte as nat),
        vstd::utf8::encode_utf8(contents@).len() < usize::MAX,
    ensures
        r == line_of_byte(contents@, byte as nat),
{
    let b = contents.as_bytes();
    let end: usize = if byte < b.len() { byte } else { b.len() };
    let mut count: usize = 0;
    let mut i: usize = 0;
    while i < end
        invariant
            i <= end <= b@.len(),
            b@ == vstd::utf8::encode_utf8(contents@),
            b@.len() < usize::MAX,
            count == newlines(b@.take(i as int)),
            count <= i,
        decreases end - i,
    {
        assert(b@.take(i + 1).drop_last() =~= b@.take(i as int));
        if b[i] == 10 {
            count += 1;
        }
        i += 1;
    }
    assert(b@.take(end as int) =~= bytes_before(contents@, byte as nat));
    count + 1
}

/// The 1-based column of byte offset `byte`: one more than the
/// characters between the start of its line and it.
pub fn column_at(contents: &str, byte: usize) -> (r: usize)
    requires
        at_char_boundary(contents@, byte as nat),
        vstd::utf8::encode_utf8(contents@).len() < usize::MAX,
    ensures
        r == char_starts(bytes_before(contents@, byte as nat).skip(line_start(bytes_before(contents@, byte as nat)) as int)) + 1,
{
    let b = contents.as_bytes();
    let end: usize = if byte < b.len() { byte } else { b.len() };
    let ghost pre = b@.take(end as int);
    assert(pre =~= bytes_before(contents@, byte as nat));
    let mut start: usize = 0;
    let mut i: usize = 0;
    while i < end
        invariant
            i <= end <= b@.len(),
            pre == b@.take(end as int),
            start == line_start(b@.take(i as int)),
            start <= i,
        decreases end - i,
    {
        assert(b@.take(i + 1).drop_last() =~= b@.take(i as int));
        if b[i] == 10 {
            start = i + 1;
        }
        i += 1;
    }
    assert(b@.take(end as int) =~= pre);
    let mut count: usize = 0;
    let mut k: usize = start;
    while k < end
        invariant
            start <= k <= end <= b@.len(),
            b@.len() < usize::MAX,
            count == char_starts(b@.subrange(start as int, k as int)),
            count <= k - start,
        decreases end - k,
    {
        assert(b@.subrange(start as int, k + 1).drop_last() =~= b@.subrange(start as int, k as int));
        if b[k] < 0x80 || b[k] >= 0xC0 {
            count += 1;
        }
        k += 1;
    }
    assert(pre.skip(start as int) =~= b@.subrange(start as int, end as int));
    count + 1
}

/// The source lines around byte offset `byte` (those of `snippet_text`
/// for its line).
pub fn snippet_at(contents: &str, byte: usize) -> (r: String)
    requires
        at_char_boundary(contents@, byte as nat),
        vstd::utf8::encode_utf8(contents@).len() < usize::MAX,
    ensures
        r@ == snippet_text(contents@, line_of_byte(contents@, byte as nat)),
{
    let line = line_at(contents, byte);
    snippet_around(contents, line)
}

} // verus!
