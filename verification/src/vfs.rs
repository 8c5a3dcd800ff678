//! The shapes every filesystem speaks: mount and inode identifiers, inode
//! metadata and bounded directory entries.

use vstd::prelude::*;

verus! {

/// Filesystem-wide identifier; an inode is unique by `(MountId, InodeNum)`.
#[derive(Debug, Clone, Copy, PartialEq, Eq, Structural, Hash)]
pub struct MountId(pub u32);

#[derive(Debug, Clone, Copy, PartialEq, Eq, Structural, Hash)]
pub struct InodeNum(pub u64);

#[derive(Debug, Clone, Copy, PartialEq, Eq, Structural)]
pub enum InodeKind {
    File,
    Directory,
    /// Symlinks and special files.
    Other,
}

impl InodeKind {
    /// The on-disk code of the kind: 1 file, 2 directory, 0xFF other.
    pub fn code(self) -> (r: u8)
        ensures
            r == (match self { InodeKind::File => 1u8, InodeKind::Directory => 2u8, InodeKind::Other => 0xFFu8 }),
    {
        match self {
            InodeKind::File => 1,
            InodeKind::Directory => 2,
            InodeKind::Other => 0xFF,
        }
    }
}

#[derive(Debug, Clone, Copy, PartialEq, Eq, Structural)]
pub struct Inode {
    pub mount: MountId,
    pub num: InodeNum,
    pub kind: InodeKind,
    pub size_bytes: u64,
}

/// One directory-listing entry; names are bounded to 64 bytes.
#[derive(Clone, Copy)]
pub struct DirEntry {
    pub inode: Inode,
    pub name_len: u8,
    pub name: [u8; 64],
}

impl DirEntry {
    /// An unused slot: inode 0 of mount 0, kind `Other`, empty name.
    pub fn empty() -> (r: Self)
        ensures
            r.inode == (Inode { mount: MountId(0), num: InodeNum(0), kind: InodeKind::Other, size_bytes: 0 }),
            r.name_len == 0,
            forall|i: int| 0 <= i < 64 ==> r.name@[i] == 0,
    {
        DirEntry {
            inode: Inode { mount: MountId(0), num: InodeNum(0), kind: InodeKind::Other, size_bytes: 0 },
            name_len: 0,
            name: [0; 64],
        }
    }

    /// The first `name_len` bytes of the name buffer.
    pub fn name(&self) -> (r: &[u8])
        requires
            self.name_len <= 64,
        ensures
            r@ == self.name@.subrange(0, self.name_len as int),
    {
        vstd::slice::slice_subrange(self.name.as_slice(), 0, self.name_len as usize)
    }
}

/// Status a block device reports for a failed transfer.
#[derive(Debug, Clone, Copy, PartialEq, Eq, Structural)]
pub enum BlockIoStatus {
    /// The buffer handed to the device has the wrong size.
    BadBuffer,
    /// Any other device status, by its raw code.
    Failed(i32),
}

#[derive(Debug, Clone, Copy, PartialEq, Eq, Structural)]
pub enum VfsError {
    NotFound,
    NotADirectory,
    NotAFile,
    PermissionDenied,
    Io(BlockIoStatus),
    /// The volume uses a layout this reader does not handle.
    NotImplemented,
}

} // verus!
