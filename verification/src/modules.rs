//! Script modules: the lockfile that pins each module's path, version and
//! SHA-256, and the loader that resolves module names to files and checks
//! them against the lockfile.

use vstd::prelude::*;
use std::path::PathBuf;
use sha2::Digest;
use crate::json::hex_digit;
use crate::path::{absolute, same_path, path_joined, path_with_ext, path_pushed, path_text, path_of,
    is_absolute, paths_equal, join_path, with_extension, push_path, display_path, clone_path, path_from_str};
use crate::text::{debug_text, debug_quoted, push_str, push_char};

verus! {

broadcast use vstd::string::group_string_axioms;

/// One lockfile entry: a module, the file it resolves to, its pinned
/// version, and the SHA-256 (hex) of its source.
#[derive(Debug)]
pub struct LockEntry {
    pub name: String,
    pub version: String,
    pub path: PathBuf,
    pub sha256: String,
}

impl Clone for LockEntry {
    fn clone(&self) -> (r: Self)
        ensures
            r.name@ == self.name@,
            r.version@ == self.version@,
            r.path == self.path,
            r.sha256@ == self.sha256@,
    {
        LockEntry {
            name: self.name.clone(),
            version: self.version.clone(),
            path: clone_path(&self.path),
            sha256: self.sha256.clone(),
        }
    }
}

/// The entries of a lockfile, in file order.
#[derive(Debug, Clone)]
pub struct Lockfile {
    pub entries: Vec<LockEntry>,
}

impl Default for Lockfile {
    /// A lockfile with no entries.
    fn default() -> (r: Self)
        ensures
            r.entries@.len() == 0,
    {
        Lockfile { entries: Vec::new() }
    }
}

/// The index of the first entry named `name`.
pub open spec fn first_entry(entries: Seq<LockEntry>, name: Seq<char>) -> Option<int>
    decreases entries.len(),
{
    if entries.len() == 0 {
        None
    } else {
        match first_entry(entries.drop_last(), name) {
            Some(i) => Some(i),
            None => if entries.last().name@ == name { Some(entries.len() - 1) } else { None },
        }
    }
}

proof fn lemma_first_entry_step(entries: Seq<LockEntry>, name: Seq<char>, i: int)
    requires
        0 <= i < entries.len(),
        first_entry(entries.take(i), name) is None,
    ensures
        first_entry(entries.take(i + 1), name) == if entries[i].name@ == name { Some(i) } else { None::<int> },
{
    assert(entries.take(i + 1).drop_last() =~= entries.take(i));
}

proof fn lemma_first_entry_extend(entries: Seq<LockEntry>, name: Seq<char>, i: int, n: int)
    requires
        0 <= i <= n <= entries.len(),
        first_entry(entries.take(i), name) is Some,
    ensures
        first_entry(entries.take(n), name) == first_entry(entries.take(i), name),
    decreases n - i,
{
    if n > i {
        lemma_first_entry_extend(entries, name, i, n - 1);
        assert(entries.take(n).drop_last() =~= entries.take(n - 1));
    }
}

proof fn lemma_first_entry_range(entries: Seq<LockEntry>, name: Seq<char>)
    ensures
        first_entry(entries, name) matches Some(i) ==> 0 <= i < entries.len() && entries[i].name@ == name,
    decreases entries.len(),
{
    if entries.len() > 0 {
        lemma_first_entry_range(entries.drop_last(), name);
    }
}

impl Lockfile {
    /// A lockfile with no entries.
    pub fn empty() -> (r: Self)
        ensures
            r.entries@.len() == 0,
    {
        Lockfile { entries: Vec::new() }
    }

    /// The first entry for module `name`.
    pub fn lookup(&self, name: &str) -> (r: Option<&LockEntry>)
        ensures
            match first_entry(self.entries@, name@) {
                Some(i) => r matches Some(e) && *e == self.entries@[i],
                None => r is None,
            },
    {
        let mut i: usize = 0;
        assert(self.entries@.take(0).len() == 0);
        while i < self.entries.len()
            invariant
                i <= self.entries@.len(),
                first_entry(self.entries@.take(i as int), name@) is None,
            decreases self.entries.len() - i,
        {
            proof { lemma_first_entry_step(self.entries@, name@, i as int); }
            if crate::text::str_eq(self.entries[i].name.as_str(), name) {
                proof { lemma_first_entry_extend(self.entries@, name@, i + 1, self.entries@.len() as int); }
                assert(self.entries@.take(self.entries@.len() as int) =~= self.entries@);
                return Some(&self.entries[i]);
            }
            i += 1;
        }
        assert(self.entries@.take(self.entries@.len() as int) =~= self.entries@);
        None
    }

    pub fn is_empty(&self) -> (r: bool)
        ensures
            r == (self.entries@.len() == 0),
    {
        self.entries.len() == 0
    }

    pub fn len(&self) -> (r: usize)
        ensures
            r == self.entries@.len(),
    {
        self.entries.len()
    }
}

// ------------------------------------------------------------------- hashes

/// The SHA-256 digest of a text's UTF-8 bytes.
pub uninterp spec fn sha256_digest(text: Seq<char>) -> Seq<u8>;

/// `Sha256::digest(s.as_bytes())` as bytes; a SHA-256 digest is 32 bytes.
#[verifier::external_body]
fn sha256_bytes(s: &str) -> (r: Vec<u8>)
    ensures
        r@ == sha256_digest(s@),
        r@.len() == 32,
{
    sha2::Sha256::digest(s.as_bytes()).to_vec()
}

/// Lowercase hexadecimal, two digits per byte (what `hex::encode` gives).
pub open spec fn hex_text(bytes: Seq<u8>) -> Seq<char>
    decreases bytes.len(),
{
    if bytes.len() == 0 {
        Seq::empty()
    } else {
        hex_text(bytes.drop_last()) + seq![hex_digit((bytes.last() / 16) as nat), hex_digit((bytes.last() % 16) as nat)]
    }
}

/// Encodes bytes as lowercase hexadecimal.
pub fn hex_encode(bytes: &[u8]) -> (r: String)
    ensures
        r@ == hex_text(bytes@),
{
    let mut out = String::new();
    let mut i: usize = 0;
    while i < bytes.len()
        invariant
            i <= bytes@.len(),
            out@ == hex_text(bytes@.take(i as int)),
        decreases bytes.len() - i,
    {
        let b = bytes[i];
        let hi = b / 16;
        let lo = b % 16;
        push_char(&mut out, if hi < 10 { (48 + hi) as char } else { (87 + hi) as char });
        push_char(&mut out, if lo < 10 { (48 + lo) as char } else { (87 + lo) as char });
        assert(bytes@.take(i + 1).drop_last() =~= bytes@.take(i as int));
        i += 1;
    }
    assert(bytes@.take(bytes@.len() as int) =~= bytes@);
    out
}

/// The SHA-256 of a string's UTF-8 bytes, in lowercase hexadecimal.
pub fn sha256_of_str(s: &str) -> (r: String)
    ensures
        r@ == hex_text(sha256_digest(s@)),
{
    let digest = sha256_bytes(s);
    hex_encode(digest.as_slice())
}

/// A character with ASCII letters lowered.
pub open spec fn ascii_lower(c: char) -> char {
    if 'A' <= c && c <= 'Z' { (((c as u8) + 32) as u8) as char } else { c }
}

/// ASCII case-insensitive equality (`str::eq_ignore_ascii_case`).
pub open spec fn eq_ignore_case(a: Seq<char>, b: Seq<char>) -> bool {
    a.len() == b.len() && forall|i: int| 0 <= i < a.len() ==> ascii_lower(#[trigger] a[i]) == ascii_lower(b[i])
}

fn lower_char(c: char) -> (r: char)
    ensures
        r == ascii_lower(c),
{
    if 'A' <= c && c <= 'Z' {
        let u: u8 = (c as u8) + 32;
        u as char
    } else {
        c
    }
}

/// Whether two strings are equal ignoring ASCII case.
pub fn eq_ignore_ascii_case(a: &str, b: &str) -> (r: bool)
    ensures
        r == eq_ignore_case(a@, b@),
{
    let ac = crate::text::to_chars(a);
    let bc = crate::text::to_chars(b);
    if ac.len() != bc.len() {
        return false;
    }
    let mut i: usize = 0;
    while i < ac.len()
        invariant
            i <= ac@.len() == bc@.len(),
            ac@ == a@,
            bc@ == b@,
            forall|k: int| 0 <= k < i ==> ascii_lower(#[trigger] a@[k]) == ascii_lower(b@[k]),
        decreases ac.len() - i,
    {
        if lower_char(ac[i]) != lower_char(bc[i]) {
            return false;
        }
        i += 1;
    }
    true
}

// ------------------------------------------------------------------- loader

/// Resolves module names under a modules directory and checks module
/// files against a lockfile.
#[derive(Debug)]
pub struct ModuleLoader {
    pub modules_dir: PathBuf,
    pub lockfile: Lockfile,
}

impl Clone for ModuleLoader {
    fn clone(&self) -> (r: Self)
        ensures
            r.modules_dir == self.modules_dir,
    {
        ModuleLoader { modules_dir: clone_path(&self.modules_dir), lockfile: self.lockfile.clone() }
    }
}

/// A path made absolute against the modules directory.
pub open spec fn absolute_in(dir: PathBuf, p: PathBuf) -> PathBuf {
    if absolute(p) { p } else { path_joined(dir, p) }
}

/// The relative path of a dotted module name: one segment per part.
pub open spec fn segments_path(parts: Seq<Seq<char>>) -> PathBuf
    decreases parts.len(),
{
    if parts.len() == 0 {
        path_of(Seq::empty())
    } else {
        path_pushed(segments_path(parts.drop_last()), path_of(parts.last()))
    }
}

/// The parts of a dotted name, split at each `.`.
pub open spec fn dotted_parts(name: Seq<char>) -> Seq<Seq<char>>
    decreases name.len(),
{
    if name.len() == 0 {
        seq![Seq::empty()]
    } else {
        let p = dotted_parts(name.drop_last());
        if name.last() == '.' {
            p.push(Seq::empty())
        } else {
            p.update(p.len() - 1, p.last().push(name.last()))
        }
    }
}

proof fn lemma_dotted_parts_len(name: Seq<char>)
    ensures
        dotted_parts(name).len() >= 1,
    decreases name.len(),
{
    if name.len() > 0 {
        lemma_dotted_parts_len(name.drop_last());
    }
}

/// The file a module name resolves to: `lib.vec2` is `<dir>/lib/vec2.lua`.
pub open spec fn module_file(dir: PathBuf, name: Seq<char>) -> PathBuf {
    path_with_ext(path_joined(dir, segments_path(dotted_parts(name))), "lua"@)
}

/// The relative path of a dotted module name, with a `.lua` extension.
pub open spec fn module_rel_file(name: Seq<char>) -> PathBuf {
    path_with_ext(segments_path(dotted_parts(name)), "lua"@)
}

/// Builds the path of a dotted name's segments.
fn dotted_path(name: &str) -> (r: PathBuf)
    ensures
        r == segments_path(dotted_parts(name@)),
{
    let cs = crate::text::to_chars(name);
    let ghost s = name@;
    let mut done: PathBuf = PathBuf::new();
    let mut cur = String::new();
    let mut i: usize = 0;
    proof {
        reveal_strlit("");
        assert(""@ =~= Seq::<char>::empty());
        assert(s.take(0) =~= Seq::<char>::empty());
        assert(dotted_parts(s.take(0)).drop_last() =~= Seq::<Seq<char>>::empty());
    }
    while i < cs.len()
        invariant
            cs@ == s,
            i <= s.len(),
            dotted_parts(s.take(i as int)).len() >= 1,
            done == segments_path(dotted_parts(s.take(i as int)).drop_last()),
            cur@ == dotted_parts(s.take(i as int)).last(),
        decreases cs.len() - i,
    {
        let c = cs[i];
        let ghost p = dotted_parts(s.take(i as int));
        assert(s.take(i + 1).drop_last() =~= s.take(i as int));
        proof { lemma_dotted_parts_len(s.take(i + 1)); }
        if c == '.' {
            push_path(&mut done, &path_from_str(cur.as_str()));
            cur = String::new();
            proof {
                let q = dotted_parts(s.take(i + 1));
                assert(q == p.push(Seq::<char>::empty()));
                assert(q.drop_last() =~= p);
                assert(p.drop_last().push(p.last()) =~= p);
                assert(segments_path(p) == path_pushed(segments_path(p.drop_last()), path_of(p.last())));
            }
        } else {
            push_char(&mut cur, c);
            proof {
                let q = dotted_parts(s.take(i + 1));
                assert(q.drop_last() =~= p.drop_last());
            }
        }
        i += 1;
    }
    assert(s.take(cs@.len() as int) =~= s);
    push_path(&mut done, &path_from_str(cur.as_str()));
    proof {
        let p = dotted_parts(s);
        assert(p.drop_last().push(p.last()) =~= p);
    }
    done
}

impl ModuleLoader {
    /// A loader for `modules_dir` with an empty lockfile.
    pub fn new(modules_dir: PathBuf) -> (r: Self)
        ensures
            r.modules_dir == modules_dir,
            r.lockfile.entries@.len() == 0,
    {
        ModuleLoader { modules_dir, lockfile: Lockfile::empty() }
    }

    /// A loader for `modules_dir` checking against `lockfile`.
    pub fn with_lockfile(modules_dir: PathBuf, lockfile: Lockfile) -> (r: Self)
        ensures
            r.modules_dir == modules_dir,
            r.lockfile.entries@ == lockfile.entries@,
    {
        ModuleLoader { modules_dir, lockfile }
    }

    /// The file module `module_name` would be loaded from (whether or not
    /// it exists).
    pub fn resolve_file(&self, module_name: &str) -> (r: PathBuf)
        ensures
            r == module_file(self.modules_dir, module_name@),
    {
        let rel = dotted_path(module_name);
        let joined = join_path(&self.modules_dir, &rel);
        with_extension(&joined, "lua")
    }

    fn absolute_path(&self, path: &PathBuf) -> (r: PathBuf)
        ensures
            r == absolute_in(self.modules_dir, *path),
    {
        if is_absolute(path) {
            clone_path(path)
        } else {
            join_path(&self.modules_dir, path)
        }
    }

    /// Checks module `name`, loaded from `path`, against the lockfile.
    /// `file_hash` is the SHA-256 (hex) of the file at `path`, or why it
    /// could not be read; it is consulted only once the path checks pass.
    /// With an empty lockfile everything passes.
    pub fn validate_lockfile_for(&self, name: &str, path: &PathBuf, file_hash: Result<String, String>) -> (r: Result<(), String>)
        ensures
            self.lockfile.entries@.len() == 0 ==> r is Ok,
            self.lockfile.entries@.len() > 0 ==> match first_entry(self.lockfile.entries@, name@) {
                None => r matches Err(m) && m@ == "luarocks.lock: module "@ + debug_text(name@) + " is not in the lockfile"@,
                Some(i) => {
                    let e = self.lockfile.entries@[i];
                    let recorded = absolute_in(self.modules_dir, e.path);
                    let actual = absolute_in(self.modules_dir, *path);
                    if !same_path(recorded, actual) {
                        r matches Err(m) && m@ == "luarocks.lock: module "@ + debug_text(name@) + " path drift (recorded "@
                            + path_text(recorded) + ", actual "@ + path_text(actual) + ")"@
                    } else {
                        match file_hash {
                            Err(why) => r matches Err(m) && m@ == "luarocks.lock: cannot hash "@ + debug_text(name@) + ": "@ + why@,
                            Ok(h) => if eq_ignore_case(h@, e.sha256@) {
                                r is Ok
                            } else {
                                r matches Err(m) && m@ == "luarocks.lock: hash drift for "@ + debug_text(name@) + " (recorded "@
                                    + e.sha256@ + ", actual "@ + h@ + ")"@
                            },
                        }
                    }
                },
            },
    {
        if self.lockfile.is_empty() {
            return Ok(());
        }
        proof { lemma_first_entry_range(self.lockfile.entries@, name@); }
        let entry = match self.lockfile.lookup(name) {
            Some(e) => e,
            None => {
                let mut m = "luarocks.lock: module ".to_string();
                push_str(&mut m, debug_quoted(name).as_str());
                push_str(&mut m, " is not in the lockfile");
                return Err(m);
            },
        };
        let recorded = self.absolute_path(&entry.path);
        let actual = self.absolute_path(path);
        if !paths_equal(&recorded, &actual) {
            let mut m = "luarocks.lock: module ".to_string();
            push_str(&mut m, debug_quoted(name).as_str());
            push_str(&mut m, " path drift (recorded ");
            push_str(&mut m, display_path(&recorded).as_str());
            push_str(&mut m, ", actual ");
            push_str(&mut m, display_path(&actual).as_str());
            push_str(&mut m, ")");
            return Err(m);
        }
        match file_hash {
            Err(why) => {
                let mut m = "luarocks.lock: cannot hash ".to_string();
                push_str(&mut m, debug_quoted(name).as_str());
                push_str(&mut m, ": ");
                push_str(&mut m, why.as_str());
                Err(m)
            },
            Ok(h) => {
                if eq_ignore_ascii_case(h.as_str(), entry.sha256.as_str()) {
                    Ok(())
                } else {
                    let mut m = "luarocks.lock: hash drift for ".to_string();
                    push_str(&mut m, debug_quoted(name).as_str());
                    push_str(&mut m, " (recorded ");
                    push_str(&mut m, entry.sha256.as_str());
                    push_str(&mut m, ", actual ");
                    push_str(&mut m, h.as_str());
                    push_str(&mut m, ")");
                    Err(m)
                }
            },
        }
    }

    /// The file each lockfile entry pins, made absolute, in entry order.
    pub fn entry_paths(&self) -> (r: Vec<PathBuf>)
        ensures
            r@.len() == self.lockfile.entries@.len(),
            forall|i: int| 0 <= i < r@.len() ==> #[trigger] r@[i] == absolute_in(self.modules_dir, self.lockfile.entries@[i].path),
    {
        let mut out: Vec<PathBuf> = Vec::new();
        let mut i: usize = 0;
        while i < self.lockfile.entries.len()
            invariant
                i <= self.lockfile.entries@.len(),
                out@.len() == i,
                forall|k: int| 0 <= k < i ==> #[trigger] out@[k] == absolute_in(self.modules_dir, self.lockfile.entries@[k].path),
            decreases self.lockfile.entries.len() - i,
        {
            out.push(self.absolute_path(&self.lockfile.entries[i].path));
            i += 1;
        }
        out
    }

    /// Checks every entry against its file's hash: `file_hashes[i]` is
    /// the SHA-256 (hex) of entry `i`'s file (see `entry_paths`), or why
    /// it could not be read. The first entry that fails decides the error.
    pub fn validate_lockfile(&self, file_hashes: &Vec<Result<String, String>>) -> (r: Result<(), String>)
        requires
            file_hashes@.len() == self.lockfile.entries@.len(),
        ensures
            r is Ok == forall|i: int| 0 <= i < file_hashes@.len() ==>
                (#[trigger] file_hashes@[i] matches Ok(h) && eq_ignore_case(h@, self.lockfile.entries@[i].sha256@)),
            r matches Err(m) ==> exists|i: int| 0 <= i < file_hashes@.len()
                && (forall|k: int| 0 <= k < i ==> (#[trigger] file_hashes@[k] matches Ok(h) && eq_ignore_case(h@, self.lockfile.entries@[k].sha256@)))
                && m@ == entry_error(self.lockfile.entries@[i], absolute_in(self.modules_dir, self.lockfile.entries@[i].path), #[trigger] file_hashes@[i]),
    {
        let mut i: usize = 0;
        while i < file_hashes.len()
            invariant
                i <= file_hashes@.len() == self.lockfile.entries@.len(),
                forall|k: int| 0 <= k < i ==> (#[trigger] file_hashes@[k] matches Ok(h) && eq_ignore_case(h@, self.lockfile.entries@[k].sha256@)),
            decreases file_hashes.len() - i,
        {
            let entry = &self.lockfile.entries[i];
            let abs = self.absolute_path(&entry.path);
            match &file_hashes[i] {
                Err(why) => {
                    let mut m = "luarocks.lock entry ".to_string();
                    push_str(&mut m, debug_quoted(entry.name.as_str()).as_str());
                    push_str(&mut m, ": cannot read ");
                    push_str(&mut m, display_path(&abs).as_str());
                    push_str(&mut m, ": ");
                    push_str(&mut m, why.as_str());
                    return Err(m);
                },
                Ok(h) => {
                    if !eq_ignore_ascii_case(h.as_str(), entry.sha256.as_str()) {
                        let mut m = "luarocks.lock drift for module ".to_string();
                        push_str(&mut m, debug_quoted(entry.name.as_str()).as_str());
                        push_str(&mut m, ": expected sha256 ");
                        push_str(&mut m, entry.sha256.as_str());
                        push_str(&mut m, " but found ");
                        push_str(&mut m, h.as_str());
                        push_str(&mut m, " at ");
                        push_str(&mut m, display_path(&abs).as_str());
                        return Err(m);
                    }
                },
            }
            i += 1;
        }
        Ok(())
    }

    /// A lockfile for the given modules, each `(name, version, source)`,
    /// in the order given: each pinned at its file relative to the modules
    /// directory (`a.b` is `a/b.lua`; a name that spells an absolute path
    /// stays absolute) with the SHA-256 of its source.
    pub fn build_lockfile(&self, modules: &Vec<(String, String, String)>) -> (r: Lockfile)
        ensures
            r.entries@.len() == modules@.len(),
            forall|i: int| 0 <= i < modules@.len() ==> {
                let e = #[trigger] r.entries@[i];
                &&& e.name@ == modules@[i].0@
                &&& e.version@ == modules@[i].1@
                &&& e.path == module_rel_file(modules@[i].0@)
                &&& e.sha256@ == hex_text(sha256_digest(modules@[i].2@))
            },
    {
        let mut entries: Vec<LockEntry> = Vec::new();
        let mut i: usize = 0;
        while i < modules.len()
            invariant
                i <= modules@.len(),
                entries@.len() == i,
                forall|k: int| 0 <= k < i ==> {
                    let e = #[trigger] entries@[k];
                    &&& e.name@ == modules@[k].0@
                    &&& e.version@ == modules@[k].1@
                    &&& e.path == module_rel_file(modules@[k].0@)
                    &&& e.sha256@ == hex_text(sha256_digest(modules@[k].2@))
                },
            decreases modules.len() - i,
        {
            let (name, version, source) = &modules[i];
            let rel = with_extension(&dotted_path(name.as_str()), "lua");
            entries.push(LockEntry {
                name: name.clone(),
                version: version.clone(),
                path: rel,
                sha256: sha256_of_str(source.as_str()),
            });
            i += 1;
        }
        Lockfile { entries }
    }
}

/// The error `validate_lockfile` reports for an entry whose file could
/// not be read or hashes differently.
pub open spec fn entry_error(e: LockEntry, abs: PathBuf, hash: Result<String, String>) -> Seq<char> {
    match hash {
        Err(why) => "luarocks.lock entry "@ + debug_text(e.name@) + ": cannot read "@ + path_text(abs) + ": "@ + why@,
        Ok(h) => "luarocks.lock drift for module "@ + debug_text(e.name@) + ": expected sha256 "@ + e.sha256@
            + " but found "@ + h@ + " at "@ + path_text(abs),
    }
}

} // verus!
