//! Imports: where they point, how their contents are read, and the hash
//! they may be pinned to.

use vstd::prelude::*;

verus! {

/// How an import's contents are to be interpreted.
#[derive(Debug, Copy, Clone, PartialEq, Eq, Structural)]
pub enum ImportMode {
    Code,
    RawText,
    Location,
}

/// The anchor of a local path import.
#[derive(Debug, Copy, Clone, PartialEq, Eq, Structural)]
pub enum FilePrefix {
    /// `/`
    Absolute,
    /// `./`
    Here,
    /// `../`
    Parent,
    /// `~/`
    Home,
}

/// The scheme of a remote import.
#[derive(Debug, Copy, Clone, PartialEq, Eq, Structural)]
pub enum Scheme {
    HTTP,
    HTTPS,
}

/// A content hash: the digest bytes of the one supported algorithm.
#[derive(Debug)]
pub enum Hash {
    SHA256(Vec<u8>),
}

impl Hash {
    /// The digest bytes.
    pub open spec fn view(&self) -> Seq<u8> {
        match self {
            Hash::SHA256(bytes) => bytes@,
        }
    }
}

impl Clone for Hash {
    fn clone(&self) -> (r: Self)
        ensures
            r@ == self@,
    {
        match self {
            Hash::SHA256(bytes) => {
                let mut copy: Vec<u8> = Vec::new();
                let mut i: usize = 0;
                while i < bytes.len()
                    invariant
                        i <= bytes@.len(),
                        copy@ == bytes@.subrange(0, i as int),
                    decreases bytes@.len() - i,
                {
                    copy.push(bytes[i]);
                    i = i + 1;
                    proof {
                        assert(copy@ =~= bytes@.subrange(0, i as int));
                    }
                }
                proof {
                    assert(copy@ =~= bytes@);
                }
                Hash::SHA256(copy)
            },
        }
    }
}

/// A remote location: scheme, verbatim authority, path components, optional
/// verbatim query, and an optional `using` headers clause of type `H`.
#[derive(Debug)]
pub struct URLData<H> {
    pub scheme: Scheme,
    pub authority: String,
    pub path: Vec<String>,
    pub query: Option<String>,
    pub headers: Option<Box<H>>,
}

/// The headers clause of a remote import: a location plus an optional hash.
pub type ImportHashed = (ImportLocation, Option<Hash>);

/// A remote location whose headers clause is itself an import.
pub type URL = URLData<ImportHashed>;

/// Where an import points.
#[derive(Debug)]
pub enum ImportLocation {
    /// A local file, anchored at a prefix, as path components.
    Local(FilePrefix, Vec<String>),
    /// A remote file.
    Remote(URLData<(ImportLocation, Option<Hash>)>),
    /// An environment variable.
    Env(String),
    /// The unresolvable import.
    Missing,
}

/// An unresolved import: its mode, its location, and an optional expected
/// content hash.
#[derive(Debug)]
pub struct Import {
    pub mode: ImportMode,
    pub location: ImportLocation,
    pub hash: Option<Hash>,
}

/// Clones a vector of strings, character for character.
fn clone_strings(v: &Vec<String>) -> (r: Vec<String>)
    ensures
        strings_match(v@, r@),
{
    let mut out: Vec<String> = Vec::new();
    let mut i: usize = 0;
    while i < v.len()
        invariant
            i <= v@.len(),
            out@.len() == i,
            forall|j: int| 0 <= j < i ==> (#[trigger] out@[j])@ == v@[j]@,
        decreases v@.len() - i,
    {
        out.push(v[i].clone());
        i = i + 1;
    }
    out
}

impl Clone for ImportLocation {
    /// A clone points at the same place.
    fn clone(&self) -> (r: Self)
        ensures
            location_matches(*self, r),
        decreases self,
    {
        match self {
            ImportLocation::Local(prefix, path) => {
                ImportLocation::Local(*prefix, clone_strings(path))
            },
            ImportLocation::Remote(url) => {
                let headers: Option<Box<ImportHashed>> = match &url.headers {
                    None => None,
                    Some(b) => Some(Box::new((b.0.clone(), clone_hash_opt(&b.1)))),
                };
                ImportLocation::Remote(
                    URLData {
                        scheme: url.scheme,
                        authority: url.authority.clone(),
                        path: clone_strings(&url.path),
                        query: match &url.query {
                            None => None,
                            Some(q) => Some(q.clone()),
                        },
                        headers,
                    },
                )
            },
            ImportLocation::Env(name) => ImportLocation::Env(name.clone()),
            ImportLocation::Missing => ImportLocation::Missing,
        }
    }
}

/// Clones an optional hash, digest for digest.
fn clone_hash_opt(h: &Option<Hash>) -> (r: Option<Hash>)
    ensures
        hash_opt_matches(*h, r),
{
    match h {
        None => None,
        Some(x) => Some(x.clone()),
    }
}

impl Clone for Import {
    /// A clone is the same import.
    fn clone(&self) -> (r: Self)
        ensures
            import_matches(*self, r),
    {
        Import {
            mode: self.mode,
            location: self.location.clone(),
            hash: clone_hash_opt(&self.hash),
        }
    }
}

/// Whether two string sequences hold the same characters, element by element.
pub open spec fn strings_match(a: Seq<String>, b: Seq<String>) -> bool {
    a.len() == b.len() && forall|i: int| 0 <= i < a.len() ==> a[i]@ == b[i]@
}

/// Whether two optional hashes hold the same digest.
pub open spec fn hash_opt_matches(a: Option<Hash>, b: Option<Hash>) -> bool {
    match (a, b) {
        (None, None) => true,
        (Some(x), Some(y)) => x@ == y@,
        _ => false,
    }
}

/// Whether two import locations are the same, comparing text by characters.
pub open spec fn location_matches(a: ImportLocation, b: ImportLocation) -> bool
    decreases a,
{
    match (a, b) {
        (ImportLocation::Local(pa, ca), ImportLocation::Local(pb, cb)) => {
            pa == pb && strings_match(ca@, cb@)
        },
        (ImportLocation::Remote(ua), ImportLocation::Remote(ub)) => {
            &&& ua.scheme == ub.scheme
            &&& ua.authority@ == ub.authority@
            &&& strings_match(ua.path@, ub.path@)
            &&& match (ua.query, ub.query) {
                (None, None) => true,
                (Some(qa), Some(qb)) => qa@ == qb@,
                _ => false,
            }
            &&& match (ua.headers, ub.headers) {
                (None, None) => true,
                (Some(ha), Some(hb)) => {
                    location_matches(ha.0, hb.0) && hash_opt_matches(ha.1, hb.1)
                },
                _ => false,
            }
        },
        (ImportLocation::Env(ea), ImportLocation::Env(eb)) => ea@ == eb@,
        (ImportLocation::Missing, ImportLocation::Missing) => true,
        _ => false,
    }
}

/// Whether two imports are the same, comparing text by characters.
pub open spec fn import_matches(a: Import, b: Import) -> bool {
    a.mode == b.mode && location_matches(a.location, b.location) && hash_opt_matches(
        a.hash,
        b.hash,
    )
}

} // verus!
