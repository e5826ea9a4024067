//! Core of a remote file-management service: a share-link registry with a
//! two-tier access policy, and the normalization logic that turns raw storage
//! entries into uniform directory listings. Storage itself (reads, writes,
//! directory enumeration) is an external capability; this crate holds the
//! decisions and the response shaping, each with a verified contract.
use vstd::prelude::*;

pub mod listing;
pub mod paths;
pub mod share;
pub mod state;

verus! {

/// Access policy attached to a shared path: `Public` entries may be fetched
/// through the share endpoint; `Private` entries are always denied there.
#[derive(Debug, Clone, Copy, PartialEq, Eq, Structural)]
pub enum AuthScheme {
    Public,
    Private,
}

/// Read-only snapshot describing one filesystem entry at operation time.
/// `size` counts bytes for files and immediate children for directories;
/// `created` and `modified` are always zero because the storage primitives
/// used here do not supply timestamps; `permissions` is a constant
/// placeholder, not derived from real filesystem permissions.
#[derive(Debug, Clone, PartialEq, Eq)]
pub struct FileInfo {
    pub name: String,
    pub path: String,
    pub size: u64,
    pub created: u64,
    pub modified: u64,
    pub is_directory: bool,
    pub permissions: String,
}

/// Mathematical image of a `FileInfo`: the same fields with strings as
/// character sequences.
pub ghost struct FileInfoView {
    pub name: Seq<char>,
    pub path: Seq<char>,
    pub size: u64,
    pub created: u64,
    pub modified: u64,
    pub is_directory: bool,
    pub permissions: Seq<char>,
}

impl View for FileInfo {
    type V = FileInfoView;

    open spec fn view(&self) -> FileInfoView {
        FileInfoView {
            name: self.name@,
            path: self.path@,
            size: self.size,
            created: self.created,
            modified: self.modified,
            is_directory: self.is_directory,
            permissions: self.permissions@,
        }
    }
}

impl FileInfoView {
    /// Entries are rooted (the path begins with a slash) and named after the
    /// final path segment.
    pub open spec fn wf(self) -> bool {
        &&& self.path.len() > 0
        &&& self.path[0] == '/'
        &&& self.name == crate::paths::last_segment(self.path)
    }
}

/// The snapshot reported after a file is created or updated at `path` with
/// `size` content bytes on storage.
pub fn file_info_for_file(path: String, size: u64) -> (r: FileInfo)
    ensures
        r@ == (FileInfoView {
            name: crate::paths::last_segment(path@),
            path: path@,
            size: size,
            created: 0,
            modified: 0,
            is_directory: false,
            permissions: "rw"@,
        }),
        path@.len() > 0 && path@[0] == '/' ==> r@.wf(),
{
    let name = crate::paths::last_segment_of(path.as_str());
    FileInfo {
        name,
        path,
        size,
        created: 0,
        modified: 0,
        is_directory: false,
        permissions: "rw".to_owned(),
    }
}

/// The snapshot reported after a directory is created at `path`: empty, so
/// its size (child count) is zero.
pub fn file_info_for_new_directory(path: String) -> (r: FileInfo)
    ensures
        r@ == (FileInfoView {
            name: crate::paths::last_segment(path@),
            path: path@,
            size: 0,
            created: 0,
            modified: 0,
            is_directory: true,
            permissions: "rw"@,
        }),
        path@.len() > 0 && path@[0] == '/' ==> r@.wf(),
{
    let name = crate::paths::last_segment_of(path.as_str());
    FileInfo {
        name,
        path,
        size: 0,
        created: 0,
        modified: 0,
        is_directory: true,
        permissions: "rw".to_owned(),
    }
}

} // verus!
