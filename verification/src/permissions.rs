//! Permission rules for the private cache and identities of opened sources.

use vstd::prelude::*;

use crate::error::ViewerError;
use crate::text::{decimal_text, hex_encode, sha256_hex, sha256_spec, string_push, string_push_str, u64_to_string};
use vstd::utf8::encode_utf8;

verus! {

/// What identifies an opened file: a platform key, its size and its
/// modification time in nanoseconds since the epoch, when known.
#[derive(Clone, Debug)]
pub struct FileIdentity {
    pub file_key: String,
    pub size: u64,
    pub modified: Option<i128>,
}

impl FileIdentity {
    /// Whether two identities agree in every field.
    pub fn same_as(&self, other: &FileIdentity) -> (r: bool)
        ensures
            r == (self.file_key@ == other.file_key@ && self.size == other.size
                && self.modified == other.modified),
    {
        crate::text::string_eq(&self.file_key, &other.file_key) && self.size == other.size
            && match (self.modified, other.modified) {
            (None, None) => true,
            (Some(a), Some(b)) => a == b,
            _ => false,
        }
    }
}

/// The platform key of a Unix file: `unix:<device>:<inode>`.
pub open spec fn unix_file_key_spec(dev: u64, ino: u64) -> Seq<char> {
    "unix:"@ + decimal_text(dev as nat) + seq![':'] + decimal_text(ino as nat)
}

/// The platform key of a Unix file: `unix:<device>:<inode>`.
pub fn unix_file_key(dev: u64, ino: u64) -> (r: String)
    ensures
        r@ == unix_file_key_spec(dev, ino),
{
    let mut out = String::new();
    string_push_str(&mut out, "unix:");
    let d = u64_to_string(dev);
    string_push_str(&mut out, d.as_str());
    string_push(&mut out, ':');
    let i = u64_to_string(ino);
    string_push_str(&mut out, i.as_str());
    out
}

/// The key of a file without a platform key: `path:` and the SHA-256 of its
/// canonical path.
pub open spec fn path_file_key_spec(canonical_path: Seq<char>) -> Seq<char> {
    "path:"@ + hex_encode(sha256_spec(encode_utf8(canonical_path)))
}

/// The identity of a file from what its metadata reported: the platform key
/// when there is one, else a key derived from the canonical path.
pub fn file_identity(platform_key: Option<String>, canonical_path: &str, size: u64, modified: Option<i128>) -> (r: FileIdentity)
    ensures
        r.size == size,
        r.modified == modified,
        match platform_key {
            Some(k) => r.file_key@ == k@,
            None => r.file_key@ == path_file_key_spec(canonical_path@),
        },
{
    let file_key = match platform_key {
        Some(k) => k,
        None => {
            let mut out = String::new();
            string_push_str(&mut out, "path:");
            let digest = sha256_hex(canonical_path.as_bytes());
            string_push_str(&mut out, digest.as_str());
            out
        },
    };
    FileIdentity { file_key, size, modified }
}

/// The error for a cache path whose permissions are unsafe.
pub fn unsafe_permissions(path: &str, reason: &str) -> (r: ViewerError)
    ensures
        r matches ViewerError::UnsafeCachePermissions { path: p, reason: q } && p@ == path@ && q@ == reason@,
{
    let mut p = String::new();
    string_push_str(&mut p, path);
    let mut q = String::new();
    string_push_str(&mut q, reason);
    ViewerError::UnsafeCachePermissions { path: p, reason: q }
}

/// Permission bits that grant group or world access.
pub const GROUP_WORLD_BITS: u32 = 0o077;

/// Why a cache directory is unsafe, if it is: not a directory, open to group
/// or world, or owned by another user.
pub open spec fn directory_problem(is_dir: bool, mode: u32, uid: u32, current_uid: u32) -> Option<Seq<char>> {
    if !is_dir {
        Some("path is not a directory"@)
    } else if mode & GROUP_WORLD_BITS != 0 {
        Some("remove group/world permissions (expected mode 0700)"@)
    } else if uid != current_uid {
        Some("directory is not owned by current user"@)
    } else {
        None
    }
}

/// Why a cache file is unsafe, if it is: not a regular file, open to group
/// or world, or owned by another user.
pub open spec fn file_problem(is_file: bool, mode: u32, uid: u32, current_uid: u32) -> Option<Seq<char>> {
    if !is_file {
        Some("path is not a regular file"@)
    } else if mode & GROUP_WORLD_BITS != 0 {
        Some("remove group/world permissions (expected mode 0600)"@)
    } else if uid != current_uid {
        Some("file is not owned by current user"@)
    } else {
        None
    }
}

/// Checks a cache directory's metadata as the Unix platform reports it.
pub fn validate_cache_directory(path: &str, is_dir: bool, mode: u32, uid: u32, current_uid: u32) -> (r: Result<(), ViewerError>)
    ensures
        match directory_problem(is_dir, mode, uid, current_uid) {
            None => r is Ok,
            Some(reason) => (r matches Err(ViewerError::UnsafeCachePermissions { path: p, reason: q })
                && p@ == path@ && q@ == reason),
        },
{
    if !is_dir {
        return Err(unsafe_permissions(path, "path is not a directory"));
    }
    if mode & GROUP_WORLD_BITS != 0 {
        return Err(unsafe_permissions(path, "remove group/world permissions (expected mode 0700)"));
    }
    if uid != current_uid {
        return Err(unsafe_permissions(path, "directory is not owned by current user"));
    }
    Ok(())
}

/// Checks a cache file's metadata as the Unix platform reports it.
pub fn validate_cache_file(path: &str, is_file: bool, mode: u32, uid: u32, current_uid: u32) -> (r: Result<(), ViewerError>)
    ensures
        match file_problem(is_file, mode, uid, current_uid) {
            None => r is Ok,
            Some(reason) => (r matches Err(ViewerError::UnsafeCachePermissions { path: p, reason: q })
                && p@ == path@ && q@ == reason),
        },
{
    if !is_file {
        return Err(unsafe_permissions(path, "path is not a regular file"));
    }
    if mode & GROUP_WORLD_BITS != 0 {
        return Err(unsafe_permissions(path, "remove group/world permissions (expected mode 0600)"));
    }
    if uid != current_uid {
        return Err(unsafe_permissions(path, "file is not owned by current user"));
    }
    Ok(())
}

/// Access rights that a broad principal (World, Authenticated Users,
/// Builtin Users) must not hold on the private cache.
pub const PRIVATE_CACHE_UNSAFE_RIGHTS: u32 = 0x0000_0001 | 0x0000_0002 | 0x0000_0004 | 0x0000_0008
    | 0x0000_0010 | 0x0000_0020 | 0x0000_0040 | 0x0000_0080 | 0x0000_0100 | 0x0001_0000
    | 0x0004_0000 | 0x0008_0000 | 0x1000_0000 | 0x2000_0000 | 0x4000_0000 | 0x8000_0000;

/// Whether any broad principal's effective rights include an unsafe right.
pub fn broad_principal_has_unsafe_rights(effective_rights: &[u32]) -> (r: bool)
    ensures
        r == (exists|i: int| 0 <= i < effective_rights@.len()
            && #[trigger] effective_rights@[i] & PRIVATE_CACHE_UNSAFE_RIGHTS != 0),
{
    let mut i: usize = 0;
    while i < effective_rights.len()
        invariant
            i <= effective_rights@.len(),
            forall|j: int| 0 <= j < i ==> #[trigger] effective_rights@[j] & PRIVATE_CACHE_UNSAFE_RIGHTS == 0,
        decreases effective_rights@.len() - i,
    {
        if effective_rights[i] & PRIVATE_CACHE_UNSAFE_RIGHTS != 0 {
            return true;
        }
        i = i + 1;
    }
    false
}

} // verus!
