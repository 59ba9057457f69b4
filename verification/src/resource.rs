//! The resource registry: `res://` URIs mapped to loaded JSON data, each
//! with a dense id and a version number.

use vstd::prelude::*;
use crate::json::Json;
use crate::error::{EngineError, IoError, IoErrorKind};
use crate::path::{join_path, path_joined, path_from_str, path_of};
use crate::text::{str_eq, strip_prefix, is_prefix};

verus! {

broadcast use vstd::string::group_string_axioms;

/// A registered resource's id; ids are handed out 0, 1, 2, ...
#[derive(Debug, Clone, Copy, PartialEq, Eq, Hash)]
pub struct ResourceId(pub u32);

impl ResourceId {
    pub fn raw(self) -> (r: u32)
        ensures
            r == self.0,
    {
        self.0
    }
}

/// A loaded resource.
#[derive(Debug)]
pub struct Resource {
    pub id: ResourceId,
    pub uri: String,
    pub data: Json,
    pub source: std::path::PathBuf,
    pub version: u32,
}

/// A URI together with the resource version it was resolved at.
#[derive(Debug, Clone, PartialEq, Eq, Hash)]
pub struct ResourceRef {
    pub uri: String,
    pub snapshot_version: u32,
}

impl ResourceRef {
    pub fn new(uri: &str, snapshot_version: u32) -> (r: Self)
        ensures
            r.uri@ == uri@,
            r.snapshot_version == snapshot_version,
    {
        ResourceRef { uri: uri.to_string(), snapshot_version }
    }
}

/// Position of `uri` among the registered URIs, if registered.
pub open spec fn uri_index(uris: Seq<Seq<char>>, uri: Seq<char>) -> Option<nat> {
    if uris.contains(uri) { Some(uris.index_of(uri) as nat) } else { None }
}

/// The URI scheme of resource paths.
pub open spec fn res_scheme() -> Seq<char> {
    seq!['r', 'e', 's', ':', '/', '/']
}

#[derive(Debug)]
pub struct ResourceRegistry {
    /// Entry `i` has id `i`; the next id and version are both the length.
    resources: Vec<Resource>,
    base_dirs: Vec<std::path::PathBuf>,
}

impl ResourceRegistry {
    /// URIs of the registered resources, indexed by id.
    pub closed spec fn uris(&self) -> Seq<Seq<char>> {
        self.resources@.map_values(|r: Resource| r.uri@)
    }

    /// The registered resources, indexed by id.
    pub closed spec fn entries(&self) -> Seq<Resource> {
        self.resources@
    }

    /// The `res://` base directories, in search order.
    pub closed spec fn bases(&self) -> Seq<std::path::PathBuf> {
        self.base_dirs@
    }

    #[verifier::type_invariant]
    closed spec fn inv(&self) -> bool {
        &&& self.resources@.len() <= u32::MAX
        &&& self.uris().no_duplicates()
        &&& forall|i: int| 0 <= i < self.resources@.len() ==> (#[trigger] self.resources@[i]).id.0 == i
            && self.resources@[i].version == i
    }

    /// Entry `i` has id `i` and version `i`; URIs are unique.
    pub fn proof_ids(&self)
        ensures
            self.uris().no_duplicates(),
            self.uris().len() == self.entries().len(),
            self.entries().len() <= u32::MAX,
            forall|i: int| 0 <= i < self.entries().len() ==> (#[trigger] self.entries()[i]).id.0 == i
                && self.entries()[i].version == i && self.entries()[i].uri@ == self.uris()[i],
    {
        proof { use_type_invariant(self); }
    }

    pub fn new() -> (r: Self)
        ensures
            r.entries().len() == 0,
            r.bases().len() == 0,
    {
        let r = ResourceRegistry { resources: Vec::new(), base_dirs: Vec::new() };
        assert(r.uris() =~= Seq::<Seq<char>>::empty());
        r
    }

    /// A registry that searches one base directory.
    pub fn with_base_dir(base_dir: std::path::PathBuf) -> (r: Self)
        ensures
            r.entries().len() == 0,
            r.bases() == seq![base_dir],
    {
        let mut r = Self::new();
        r.add_base_dir(base_dir);
        assert(r.bases() =~= seq![base_dir]);
        r
    }

    /// Adds a base directory after the existing ones.
    pub fn add_base_dir(&mut self, dir: std::path::PathBuf)
        ensures
            final(self).bases() == old(self).bases().push(dir),
            final(self).entries() == old(self).entries(),
    {
        proof { use_type_invariant(&*self); }
        let mut dirs: Vec<std::path::PathBuf> = Vec::new();
        std::mem::swap(&mut dirs, &mut self.base_dirs);
        dirs.push(dir);
        self.base_dirs = dirs;
    }

    /// The id registered for `uri`.
    pub fn resolve(&self, uri: &str) -> (r: Option<ResourceId>)
        ensures
            match r {
                Some(id) => uri_index(self.uris(), uri@) == Some(id.0 as nat),
                None => uri_index(self.uris(), uri@) is None,
            },
    {
        proof { use_type_invariant(self); }
        let mut i: usize = 0;
        while i < self.resources.len()
            invariant
                i <= self.resources@.len(),
                self.uris().no_duplicates(),
                self.resources@.len() <= u32::MAX,
                forall|j: int| 0 <= j < i ==> self.uris()[j] != uri@,
            decreases self.resources.len() - i,
        {
            if str_eq(self.resources[i].uri.as_str(), uri) {
                proof {
                    let us = self.uris();
                    assert(us[i as int] == uri@);
                    let k = us.index_of(uri@);
                    assert(us[k] == uri@);
                }
                return Some(ResourceId(i as u32));
            }
            i += 1;
        }
        None
    }

    /// Adds a resource under a new URI, with the next id and version.
    fn push_resource(&mut self, uri: &str, data: Json, source: std::path::PathBuf) -> (id: ResourceId)
        requires
            uri_index(old(self).uris(), uri@) is None,
            old(self).entries().len() < u32::MAX,
        ensures
            id.0 == old(self).entries().len(),
            final(self).entries().len() == old(self).entries().len() + 1,
            final(self).entries().drop_last() == old(self).entries(),
            final(self).entries().last().uri@ == uri@,
            final(self).entries().last().data == data,
            final(self).entries().last().source == source,
            final(self).uris() == old(self).uris().push(uri@),
            final(self).bases() == old(self).bases(),
    {
        proof { use_type_invariant(&*self); }
        let ghost old_uris = self.uris();
        let ghost old_entries = self.entries();
        let n = self.resources.len() as u32;
        let id = ResourceId(n);
        let version = n;
        let mut resources: Vec<Resource> = Vec::new();
        std::mem::swap(&mut resources, &mut self.resources);
        resources.push(Resource { id, uri: uri.to_string(), data, source, version });
        proof {
            let us = resources@.map_values(|r: Resource| r.uri@);
            assert(us =~= old_uris.push(uri@));
            assert forall|i: int, j: int| 0 <= i < us.len() && 0 <= j < us.len() && i != j implies us[i] != us[j] by {
                if i == old_uris.len() as int { assert(us[j] == old_uris[j]); }
                else if j == old_uris.len() as int { assert(us[i] == old_uris[i]); }
            }
        }
        self.resources = resources;
        proof {
            assert(self.uris() =~= old_uris.push(uri@));
            assert(self.entries().drop_last() =~= old_entries);
        }
        id
    }

    /// Registers `data` under `uri`. A URI registered before keeps its id
    /// and its first data.
    pub fn register(&mut self, uri: &str, data: Json) -> (id: ResourceId)
        requires
            uri_index(old(self).uris(), uri@) is Some || old(self).entries().len() < u32::MAX,
        ensures
            match uri_index(old(self).uris(), uri@) {
                Some(i) => id.0 == i && final(self).entries() == old(self).entries(),
                None => id.0 == old(self).entries().len()
                    && final(self).entries().len() == old(self).entries().len() + 1
                    && final(self).entries().drop_last() == old(self).entries()
                    && final(self).entries().last().uri@ == uri@
                    && final(self).entries().last().data == data,
            },
            final(self).uris() == match uri_index(old(self).uris(), uri@) {
                Some(_) => old(self).uris(),
                None => old(self).uris().push(uri@),
            },
            final(self).bases() == old(self).bases(),
            uri_index(old(self).uris(), uri@) is None ==> forall|i: int| 0 <= i < old(self).entries().len()
                ==> (#[trigger] old(self).entries()[i]).version < final(self).entries()[id.0 as int].version,
    {
        proof { use_type_invariant(&*self); }
        let r = match self.resolve(uri) {
            Some(id) => id,
            None => self.push_resource(uri, data, std::path::PathBuf::new()),
        };
        proof { use_type_invariant(&*self); }
        r
    }

    /// Records a resource read from `source` (the part of loading that
    /// follows the disk read): an already-registered URI keeps its entry.
    pub fn insert_loaded(&mut self, uri: &str, data: Json, source: std::path::PathBuf) -> (id: ResourceId)
        requires
            uri_index(old(self).uris(), uri@) is Some || old(self).entries().len() < u32::MAX,
        ensures
            match uri_index(old(self).uris(), uri@) {
                Some(i) => id.0 == i && final(self).entries() == old(self).entries(),
                None => id.0 == old(self).entries().len()
                    && final(self).entries().drop_last() == old(self).entries()
                    && final(self).entries().len() == old(self).entries().len() + 1
                    && final(self).entries().last().uri@ == uri@
                    && final(self).entries().last().data == data
                    && final(self).entries().last().source == source,
            },
            final(self).bases() == old(self).bases(),
    {
        match self.resolve(uri) {
            Some(id) => id,
            None => self.push_resource(uri, data, source),
        }
    }

    /// The resource with id `id`.
    pub fn get(&self, id: ResourceId) -> (r: Option<&Resource>)
        ensures
            match r {
                Some(res) => id.0 < self.entries().len() && *res == self.entries()[id.0 as int],
                None => id.0 >= self.entries().len(),
            },
    {
        if (id.0 as usize) < self.resources.len() {
            Some(&self.resources[id.0 as usize])
        } else {
            None
        }
    }

    /// The version of resource `id`.
    pub fn version(&self, id: ResourceId) -> (r: Option<u32>)
        ensures
            match r {
                Some(v) => id.0 < self.entries().len() && v == self.entries()[id.0 as int].version,
                None => id.0 >= self.entries().len(),
            },
    {
        match self.get(id) {
            Some(r) => Some(r.version),
            None => None,
        }
    }

    /// The URI and current version of the resource registered for `uri`.
    pub fn resolve_ref(&self, uri: &str) -> (r: Option<ResourceRef>)
        ensures
            match r {
                Some(rr) => uri_index(self.uris(), uri@) is Some && rr.uri@ == uri@
                    && rr.snapshot_version == self.entries()[uri_index(self.uris(), uri@)->0 as int].version,
                None => uri_index(self.uris(), uri@) is None,
            },
    {
        proof { use_type_invariant(self); }
        match self.resolve(uri) {
            Some(id) => {
                let r = &self.resources[id.0 as usize];
                Some(ResourceRef { uri: r.uri.clone(), snapshot_version: r.version })
            },
            None => None,
        }
    }

    pub fn len(&self) -> (n: usize)
        ensures
            n == self.entries().len(),
    {
        self.resources.len()
    }

    pub fn is_empty(&self) -> (b: bool)
        ensures
            b == (self.entries().len() == 0),
    {
        self.resources.len() == 0
    }

    /// The files a `res://` URI may name, one per base directory in search
    /// order; an error when the URI lacks the scheme or a path.
    pub fn candidate_paths(&self, uri: &str) -> (r: Result<Vec<std::path::PathBuf>, EngineError>)
        ensures
            match r {
                Ok(paths) => is_prefix(res_scheme(), uri@) && uri@.len() > res_scheme().len()
                    && paths@.len() == self.bases().len()
                    && forall|i: int| 0 <= i < paths@.len() ==> #[trigger] paths@[i] == path_joined(self.bases()[i], path_of(uri@.subrange(6, uri@.len() as int))),
                Err(EngineError::Io(io)) => io.kind == IoErrorKind::NotFound && io.file@ == uri@
                    && (!is_prefix(res_scheme(), uri@) || uri@.len() == res_scheme().len()),
                Err(_) => false,
            },
    {
        proof { reveal_strlit("res://"); assert("res://"@ =~= res_scheme()); }
        let stripped = match strip_prefix(uri, "res://") {
            Some(s) => s,
            None => {
                let mut msg = "URI must start with \"res://\", got ".to_string();
                crate::text::push_str(&mut msg, uri);
                return Err(EngineError::Io(IoError::not_found(uri, msg.as_str())));
            },
        };
        if stripped.as_str().is_empty() {
            return Err(EngineError::Io(IoError::not_found(uri, "URI has no path after res://")));
        }
        let mut out: Vec<std::path::PathBuf> = Vec::new();
        let mut i: usize = 0;
        while i < self.base_dirs.len()
            invariant
                i <= self.base_dirs@.len(),
                out@.len() == i,
                stripped@ == uri@.subrange(6, uri@.len() as int),
                forall|j: int| 0 <= j < i ==> #[trigger] out@[j] == path_joined(self.bases()[j], path_of(stripped@)),
            decreases self.base_dirs.len() - i,
        {
            out.push(join_path(&self.base_dirs[i], &path_from_str(stripped.as_str())));
            i += 1;
        }
        Ok(out)
    }
}


/// Registering a URI and then resolving it gives the id `register`
/// returned: the URI's old id if it was known, else the next id.
pub proof fn law_register_then_resolve(uris: Seq<Seq<char>>, uri: Seq<char>)
    requires
        uris.no_duplicates(),
    ensures
        uri_index(
            match uri_index(uris, uri) { Some(_) => uris, None => uris.push(uri) },
            uri,
        ) == Some(match uri_index(uris, uri) { Some(i) => i, None => uris.len() }),
{
    if uri_index(uris, uri) is None {
        let after = uris.push(uri);
        assert(after[uris.len() as int] == uri);
        assert(after.contains(uri));
        let k = after.index_of(uri);
        assert(after[k] == uri);
        if k < uris.len() {
            assert(uris[k] == uri);
            assert(uris.contains(uri));
        }
    }
}

/// Registering a URI leaves every other URI's id as it was.
pub proof fn law_register_keeps_other_ids(uris: Seq<Seq<char>>, uri: Seq<char>, other: Seq<char>)
    requires
        uris.no_duplicates(),
        other != uri,
    ensures
        uri_index(
            match uri_index(uris, uri) { Some(_) => uris, None => uris.push(uri) },
            other,
        ) == uri_index(uris, other),
{
    if uri_index(uris, uri) is None {
        let after = uris.push(uri);
        if uris.contains(other) {
            let k = uris.index_of(other);
            assert(after[k] == other);
            assert(after.contains(other));
            let k2 = after.index_of(other);
            assert(after[k2] == other);
            if k2 != k {
                if k2 < uris.len() {
                    assert(uris[k2] == other);
                }
            }
        } else {
            if after.contains(other) {
                let k2 = after.index_of(other);
                assert(after[k2] == other);
                if k2 < uris.len() {
                    assert(uris[k2] == other);
                    assert(uris.contains(other));
                }
            }
        }
    }
}

} // verus!
