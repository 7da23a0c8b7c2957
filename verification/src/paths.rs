//! Where the viewer reads sources and keeps its cache.

use vstd::prelude::*;

use crate::error::ViewerError;
use crate::rollout::types::RootKind;
use crate::text::{hex_encode, sha256_hex_prefix, sha256_spec, str_eq};
use vstd::utf8::encode_utf8;

verus! {

/// The Codex home and its session directories, as canonical paths.
#[derive(Clone, Debug)]
pub struct SourceRoots {
    pub home: String,
    pub active: Option<String>,
    pub archived: Option<String>,
}

/// The cache layout for one source home.
#[derive(Clone, Debug)]
pub struct CachePaths {
    pub top: String,
    pub namespace: String,
    pub database: String,
    pub lock: String,
}

/// Whether `path` starts with the whole components of `base`, as
/// `std::path::Path::starts_with` decides. Which characters separate
/// components depends on the build target, and is fixed for it.
pub uninterp spec fn path_has_prefix(path: Seq<char>, base: Seq<char>) -> bool;

/// `base` joined with `part`, as `std::path::Path::join` builds it with
/// the build target's separator.
pub uninterp spec fn path_joined(base: Seq<char>, part: Seq<char>) -> Seq<char>;

/// Calls `std::path::Path::starts_with` on two paths given as text. It
/// compares whole components, so a path always starts with itself.
#[verifier::external_body]
pub(crate) fn path_starts_with(path: &str, base: &str) -> (r: bool)
    ensures
        r == path_has_prefix(path@, base@),
        path@ == base@ ==> r,
{
    std::path::Path::new(path).starts_with(base)
}

/// Calls `std::path::Path::join` on two paths given as text; joining valid
/// UTF-8 text gives valid UTF-8 text, which is returned unchanged.
#[verifier::external_body]
pub(crate) fn path_join(base: &str, part: &str) -> (r: String)
    ensures
        r@ == path_joined(base@, part@),
{
    std::path::Path::new(base).join(part).to_string_lossy().into_owned()
}

/// Whether a path is absolute, as `std::path::Path::is_absolute` decides
/// for the build target.
pub uninterp spec fn path_absolute(path: Seq<char>) -> bool;

/// Calls `std::path::Path::is_absolute` on a path given as text.
#[verifier::external_body]
pub(crate) fn path_is_absolute(path: &str) -> (r: bool)
    ensures
        r == path_absolute(path@),
{
    std::path::Path::new(path).is_absolute()
}

/// The extension of a path's file name, as `std::path::Path::extension`
/// finds it with the build target's separators.
pub uninterp spec fn path_extension_text(path: Seq<char>) -> Option<Seq<char>>;

/// Calls `std::path::Path::extension` on a path given as text; the
/// extension of text is text, and is returned as it is.
#[verifier::external_body]
pub(crate) fn path_extension(path: &str) -> (r: Option<String>)
    ensures
        r is None <==> path_extension_text(path@) is None,
        r matches Some(e) ==> path_extension_text(path@) == Some(e@),
{
    std::path::Path::new(path).extension().and_then(|value| value.to_str()).map(|value| value.to_owned())
}

/// The root a changed path lies under when it names a `.jsonl` file: the
/// active root when it is there, else the archived one, else none.
pub open spec fn changed_root_spec(roots: SourceRoots, path: Seq<char>) -> Option<(RootKind, Seq<char>)> {
    let under_active = roots.active matches Some(a) && path_has_prefix(path, a@);
    let under_archived = roots.archived matches Some(a) && path_has_prefix(path, a@);
    if path_extension_text(path) != Some("jsonl"@) {
        None
    } else if under_active {
        Some((RootKind::Active, roots.active->0@))
    } else if under_archived {
        Some((RootKind::Archived, roots.archived->0@))
    } else {
        None
    }
}

/// The root a changed path lies under when it names a `.jsonl` file, and
/// which kind of root it is.
pub fn changed_path_root(roots: &SourceRoots, path: &str) -> (r: Option<(RootKind, String)>)
    ensures
        match changed_root_spec(*roots, path@) {
            Some((kind, root)) => r matches Some(p) && p.0 == kind && p.1@ == root,
            None => r is None,
        },
{
    let jsonl = match path_extension(path) {
        Some(e) => str_eq(e.as_str(), "jsonl"),
        None => false,
    };
    if !jsonl {
        return None;
    }
    if let Some(a) = &roots.active {
        if path_starts_with(path, a.as_str()) {
            return Some((RootKind::Active, a.clone()));
        }
    }
    if let Some(a) = &roots.archived {
        if path_starts_with(path, a.as_str()) {
            return Some((RootKind::Archived, a.clone()));
        }
    }
    None
}

/// Rejects a source and a cache that lie one inside the other. Both paths
/// are canonical. A path overlaps itself.
pub fn validate_no_overlap(source: &str, cache: &str) -> (r: Result<(), ViewerError>)
    ensures
        source@ == cache@ ==> r is Err,
        r is Ok <==> !(path_has_prefix(source@, cache@) || path_has_prefix(cache@, source@)),
        r matches Err(e) ==> (e matches ViewerError::PathOverlap { source_path: s, cache: c }
            && s@ == source@ && c@ == cache@),
{
    if path_starts_with(source, cache) || path_starts_with(cache, source) {
        return Err(ViewerError::PathOverlap { source_path: source.to_string(), cache: cache.to_string() });
    }
    Ok(())
}

/// The cache namespace of a source home: 16 hex digits of the SHA-256 of its path.
pub open spec fn namespace_key(source_home: Seq<char>) -> Seq<char> {
    hex_encode(sha256_spec(encode_utf8(source_home)).take(8))
}

/// The cache layout for `source_home` under the canonical cache root `top`:
/// `top/sources/<namespace>` with the index database and lock inside.
pub fn resolve_cache_paths(source_home: &str, top: &str) -> (r: Result<CachePaths, ViewerError>)
    ensures
        r is Ok <==> !(path_has_prefix(source_home@, top@) || path_has_prefix(top@, source_home@)),
        r matches Err(e) ==> (e matches ViewerError::PathOverlap { source_path: s, cache: c }
            && s@ == source_home@ && c@ == top@),
        r matches Ok(p) ==> {
            let ns = path_joined(path_joined(top@, "sources"@), namespace_key(source_home@));
            &&& p.top@ == top@
            &&& p.namespace@ == ns
            &&& p.database@ == path_joined(ns, "index.sqlite3"@)
            &&& p.lock@ == path_joined(ns, "viewer.lock"@)
        },
{
    validate_no_overlap(source_home, top)?;
    let key = sha256_hex_prefix(source_home.as_bytes(), 8);
    let sources = path_join(top, "sources");
    let namespace = path_join(sources.as_str(), key.as_str());
    let database = path_join(namespace.as_str(), "index.sqlite3");
    let lock = path_join(namespace.as_str(), "viewer.lock");
    Ok(CachePaths { top: top.to_string(), namespace, database, lock })
}

} // verus!
