//! FAT32 on-disk structures: the BIOS parameter block of sector 0, cluster
//! arithmetic, FAT entry decoding and 8.3 directory entries.

pub mod walk;

use vstd::prelude::*;
use crate::vfs::{BlockIoStatus, Inode, InodeKind, InodeNum, MountId, VfsError};

verus! {

/// Size of an 8.3 directory entry.
pub const FAT_DIR_ENTRY_SIZE: usize = 32;
/// Attribute of a long-file-name slot.
pub const ATTR_LFN: u8 = 0x0F;
pub const ATTR_DIRECTORY: u8 = 0x10;
pub const ATTR_VOLUME_ID: u8 = 0x08;
/// Sector size the reader supports.
pub const SECTOR_SIZE: usize = 512;

/// Little-endian 16-bit field at `i`.
pub open spec fn le16(b: Seq<u8>, i: int) -> int {
    b[i] + 256 * b[i + 1]
}

/// Little-endian 32-bit field at `i`.
pub open spec fn le32(b: Seq<u8>, i: int) -> int {
    b[i] + 256 * b[i + 1] + 65536 * b[i + 2] + 16777216 * b[i + 3]
}

fn read_le16(b: &[u8], i: usize) -> (r: u32)
    requires
        i + 2 <= b@.len(),
    ensures
        r == le16(b@, i as int),
        r <= 0xFFFF,
{
    b[i] as u32 + 256 * (b[i + 1] as u32)
}

pub(crate) fn read_le32(b: &[u8], i: usize) -> (r: u32)
    requires
        i + 4 <= b@.len(),
    ensures
        r == le32(b@, i as int),
{
    b[i] as u32 + 256 * (b[i + 1] as u32) + 65536 * (b[i + 2] as u32) + 16777216 * (b[i + 3] as u32)
}

/// Cluster sizes the reader accepts: a power of two sectors.
pub open spec fn is_pow2_byte(n: u32) -> bool {
    n == 1 || n == 2 || n == 4 || n == 8 || n == 16 || n == 32 || n == 64 || n == 128
}

/// The parameter block fields the reader uses.
#[derive(Debug, Clone, Copy, PartialEq, Eq, Structural)]
pub struct Bpb {
    pub bytes_per_sector: u32,
    pub sectors_per_cluster: u32,
    pub reserved_sectors: u32,
    pub num_fats: u32,
    pub sectors_per_fat: u32,
    pub root_cluster: u32,
    pub total_sectors: u32,
    /// Sector where the data region (cluster 2) begins.
    pub data_start_sector: u32,
}

/// Sector 0 carries the boot signature and a FAT32 layout the reader
/// handles: 512-byte sectors, a power-of-two cluster, at least one FAT of
/// non-zero size, no 16-bit FAT size, root cluster at least 2.
pub open spec fn bpb_acceptable(s: Seq<u8>) -> bool {
    &&& s.len() >= 512
    &&& s[0x1FE] == 0x55 && s[0x1FF] == 0xAA
    &&& le16(s, 0x0B) == 512
    &&& is_pow2_byte(s[0x0D] as u32)
    &&& s[0x10] != 0 && le32(s, 0x24) != 0
    &&& le16(s, 0x16) == 0
    &&& le32(s, 0x2C) >= 2
}

/// The parameter block an acceptable sector 0 describes.
pub open spec fn spec_bpb(s: Seq<u8>) -> Bpb {
    Bpb {
        bytes_per_sector: le16(s, 0x0B) as u32,
        sectors_per_cluster: s[0x0D] as u32,
        reserved_sectors: le16(s, 0x0E) as u32,
        num_fats: s[0x10] as u32,
        sectors_per_fat: le32(s, 0x24) as u32,
        root_cluster: le32(s, 0x2C) as u32,
        total_sectors: (if le16(s, 0x13) != 0 { le16(s, 0x13) } else { le32(s, 0x20) }) as u32,
        data_start_sector: (le16(s, 0x0E) + s[0x10] * le32(s, 0x24)) as u32,
    }
}

impl Bpb {
    /// Parse and validate sector 0.  A buffer under 512 bytes is an I/O
    /// error (bad buffer); a missing boot signature or a layout outside
    /// `bpb_acceptable` is `NotImplemented`.
    pub fn parse(sector0: &[u8]) -> (r: Result<Bpb, VfsError>)
        requires
            bpb_acceptable(sector0@) ==> le16(sector0@, 0x0E) + sector0@[0x10] * le32(sector0@, 0x24) <= u32::MAX,
        ensures
            sector0@.len() < 512 ==> r == Err::<Bpb, VfsError>(VfsError::Io(BlockIoStatus::BadBuffer)),
            sector0@.len() >= 512 && !bpb_acceptable(sector0@) ==> r == Err::<Bpb, VfsError>(VfsError::NotImplemented),
            bpb_acceptable(sector0@) ==> r == Ok::<Bpb, VfsError>(spec_bpb(sector0@)),
    {
        if sector0.len() < 512 {
            return Err(VfsError::Io(BlockIoStatus::BadBuffer));
        }
        if sector0[0x1FE] != 0x55 || sector0[0x1FF] != 0xAA {
            return Err(VfsError::NotImplemented);
        }
        let bytes_per_sector = read_le16(sector0, 0x0B);
        let sectors_per_cluster = sector0[0x0D] as u32;
        let reserved_sectors = read_le16(sector0, 0x0E);
        let num_fats = sector0[0x10] as u32;
        let fatsz16 = read_le16(sector0, 0x16);
        let sectors_per_fat = read_le32(sector0, 0x24);
        let root_cluster = read_le32(sector0, 0x2C);
        let totsec16 = read_le16(sector0, 0x13);
        let totsec32 = read_le32(sector0, 0x20);
        let total_sectors = if totsec16 != 0 { totsec16 } else { totsec32 };
        if bytes_per_sector != 512 {
            return Err(VfsError::NotImplemented);
        }
        let spc = sectors_per_cluster;
        if spc == 0 || !(spc == 1 || spc == 2 || spc == 4 || spc == 8 || spc == 16 || spc == 32 || spc == 64 || spc == 128) {
            return Err(VfsError::NotImplemented);
        }
        if num_fats == 0 || sectors_per_fat == 0 {
            return Err(VfsError::NotImplemented);
        }
        if fatsz16 != 0 {
            return Err(VfsError::NotImplemented);
        }
        if root_cluster < 2 {
            return Err(VfsError::NotImplemented);
        }
        assert(num_fats * sectors_per_fat <= u32::MAX);
        let data_start_sector = reserved_sectors + num_fats * sectors_per_fat;
        Ok(Bpb {
            bytes_per_sector,
            sectors_per_cluster,
            reserved_sectors,
            num_fats,
            sectors_per_fat,
            root_cluster,
            total_sectors,
            data_start_sector,
        })
    }

    /// First sector of data cluster `cluster` (clusters count from 2).
    pub fn cluster_to_sector(&self, cluster: u32) -> (r: u32)
        requires
            cluster >= 2,
            self.data_start_sector + (cluster - 2) * self.sectors_per_cluster <= u32::MAX,
        ensures
            r == self.data_start_sector + (cluster - 2) * self.sectors_per_cluster,
    {
        assert((cluster - 2) * self.sectors_per_cluster <= u32::MAX) by (nonlinear_arith)
            requires self.data_start_sector + (cluster - 2) * self.sectors_per_cluster <= u32::MAX, cluster >= 2;
        self.data_start_sector + (cluster - 2) * self.sectors_per_cluster
    }

    /// Bytes in one cluster.
    pub fn cluster_size_bytes(&self) -> (r: u32)
        requires
            self.bytes_per_sector * self.sectors_per_cluster <= u32::MAX,
        ensures
            r == self.bytes_per_sector * self.sectors_per_cluster,
    {
        self.bytes_per_sector * self.sectors_per_cluster
    }
}

/// Where the FAT entry of `cluster` lives: its sector and byte offset
/// within that sector (4 bytes per entry).
pub fn fat_entry_location(reserved_sectors: u32, cluster: u32) -> (r: (u64, usize))
    ensures
        r.0 == reserved_sectors + (cluster * 4) / 512,
        r.1 == (cluster * 4) % 512,
        r.1 + 4 <= 512,
{
    let off = cluster as u64 * 4;
    let in_sector = (off % 512) as usize;
    assert(in_sector % 4 == 0 && in_sector < 512) by (nonlinear_arith)
        requires in_sector == (off as int) % 512, off == cluster * 4;
    (reserved_sectors as u64 + off / 512, in_sector)
}

/// The cluster that follows in a chain, decoded from a raw FAT entry: the
/// low 28 bits, with end-of-chain (0x0FFFFFF8 and up), the bad-cluster mark
/// 0x0FFFFFF7 and the reserved values 0 and 1 all ending the chain.
pub open spec fn spec_next_cluster(raw: u32) -> Option<u32> {
    let next = raw % 0x1000_0000;
    if next >= 0x0FFF_FFF8 || next == 0x0FFF_FFF7 || next < 2 { None } else { Some(next as u32) }
}

pub fn decode_fat_entry(raw: u32) -> (r: Option<u32>)
    ensures
        r == spec_next_cluster(raw),
{
    let next = raw & 0x0FFF_FFFF;
    assert(next == raw % 0x1000_0000) by (bit_vector)
        requires next == raw & 0x0FFF_FFFF;
    if next >= 0x0FFF_FFF8 || next == 0x0FFF_FFF7 || next < 2 {
        None
    } else {
        Some(next)
    }
}

/// The displayed form of an 8.3 name: the non-space bytes of the base name,
/// then, when the extension's first byte is not a space, a dot and the
/// non-space bytes of the extension.
pub open spec fn name_8_3(raw: Seq<u8>) -> Seq<u8> {
    let base = raw.subrange(0, 8).filter(|b: u8| b != 0x20);
    if raw[8] != 0x20 {
        base + seq![0x2Eu8] + raw.subrange(8, 11).filter(|b: u8| b != 0x20)
    } else {
        base
    }
}

proof fn lemma_tail_kept(new: Seq<u8>, before: Seq<u8>, orig: Seq<u8>, l: int, v: u8)
    requires
        before.len() == 64,
        orig.len() == 64,
        0 <= l < 64,
        new == before.update(l, v),
        before.subrange(l, 64) == orig.subrange(l, 64),
    ensures
        new.subrange(l + 1, 64) == orig.subrange(l + 1, 64),
{
    assert forall|k: int| l + 1 <= k < 64 implies before[k] == orig[k] by {
        let a = before.subrange(l, 64);
        let b = orig.subrange(l, 64);
        assert(a[k - l] == before[l + (k - l)]);
        assert(b[k - l] == orig[l + (k - l)]);
        assert(a[k - l] == b[k - l]);
    }
    assert(new.subrange(l + 1, 64) =~= orig.subrange(l + 1, 64));
}

/// Copy the displayed 8.3 name into `dst`; returns its length.  Bytes of
/// `dst` past the name are left as they were.
pub fn copy_8_3_name(raw: &[u8], dst: &mut [u8; 64]) -> (n: u8)
    requires
        raw@.len() >= 11,
    ensures
        n as int == name_8_3(raw@).len(),
        n <= 12,
        final(dst)@.subrange(0, n as int) == name_8_3(raw@),
        final(dst)@.subrange(n as int, 64) == old(dst)@.subrange(n as int, 64),
{
    let ghost orig = dst@;
    let mut len: u8 = 0;
    let mut i: usize = 0;
    while i < 8
        invariant
            raw@.len() >= 11,
            i <= 8,
            len as int == raw@.subrange(0, i as int).filter(|b: u8| b != 0x20).len(),
            len <= i,
            dst@.len() == 64,
            orig.len() == 64,
            dst@.subrange(0, len as int) == raw@.subrange(0, i as int).filter(|b: u8| b != 0x20),
            dst@.subrange(len as int, 64) == orig.subrange(len as int, 64),
        decreases 8 - i,
    {
        proof {
            let s = raw@.subrange(0, i + 1);
            assert(raw@.subrange(0, i as int) == s.drop_last());
            reveal_with_fuel(Seq::filter, 1);
        }
        if raw[i] != 0x20 {
            let ghost before = dst@;
            dst[len as usize] = raw[i];
            proof {
                assert(dst@.subrange(0, len + 1) =~= before.subrange(0, len as int).push(raw@[i as int]));
                lemma_tail_kept(dst@, before, orig, len as int, raw@[i as int]);
            }
            len = len + 1;
        }
        i = i + 1;
    }
    assert(raw@.subrange(0, 8) == raw@.subrange(0, i as int));
    if raw[8] != 0x20 {
        let ghost base_len = len;
        let ghost before = dst@;
        dst[len as usize] = 0x2E;
        len = len + 1;
        assert(dst@.subrange(0, len as int) =~= before.subrange(0, base_len as int).push(0x2Eu8));
        proof { lemma_tail_kept(dst@, before, orig, base_len as int, 0x2Eu8); }
        let mut j: usize = 8;
        while j < 11
            invariant
                raw@.len() >= 11,
                8 <= j <= 11,
                raw@[8] != 0x20,
                base_len <= 8,
                len as int == base_len + 1 + raw@.subrange(8, j as int).filter(|b: u8| b != 0x20).len(),
                len <= base_len + 1 + (j - 8),
                dst@.len() == 64,
                orig.len() == 64,
            orig.len() == 64,
                dst@.subrange(0, len as int) == raw@.subrange(0, 8).filter(|b: u8| b != 0x20) + seq![0x2Eu8]
                    + raw@.subrange(8, j as int).filter(|b: u8| b != 0x20),
                dst@.subrange(len as int, 64) == orig.subrange(len as int, 64),
            decreases 11 - j,
        {
            proof {
                let s = raw@.subrange(8, j + 1);
                assert(raw@.subrange(8, j as int) == s.drop_last());
                reveal_with_fuel(Seq::filter, 1);
            }
            if raw[j] != 0x20 {
                let ghost before2 = dst@;
                dst[len as usize] = raw[j];
                proof {
                    assert(dst@.subrange(0, len + 1) =~= before2.subrange(0, len as int).push(raw@[j as int]));
                    lemma_tail_kept(dst@, before2, orig, len as int, raw@[j as int]);
                }
                len = len + 1;
            }
            j = j + 1;
        }
    }
    len
}

/// How a raw directory slot reads.
#[derive(Debug, Clone, Copy, PartialEq, Eq, Structural)]
pub enum DirSlot {
    /// First byte 0: no entries follow.
    End,
    /// Deleted (0xE5), a long-name slot or the volume label.
    Skip,
    /// A short-name file or directory entry.
    Entry,
}

pub open spec fn spec_dir_slot(e: Seq<u8>) -> DirSlot {
    if e[0] == 0 {
        DirSlot::End
    } else if e[0] == 0xE5 || e[11] == ATTR_LFN || e[11] & ATTR_VOLUME_ID != 0 {
        DirSlot::Skip
    } else {
        DirSlot::Entry
    }
}

pub fn classify_dir_slot(entry: &[u8]) -> (r: DirSlot)
    requires
        entry@.len() >= 12,
    ensures
        r == spec_dir_slot(entry@),
{
    if entry[0] == 0 {
        DirSlot::End
    } else if entry[0] == 0xE5 || entry[11] == ATTR_LFN || entry[11] & ATTR_VOLUME_ID != 0 {
        DirSlot::Skip
    } else {
        DirSlot::Entry
    }
}

/// The inode a short-name directory entry describes: first cluster from the
/// high and low halves at 20 and 26, size at 28, directory by attribute.
pub open spec fn spec_entry_inode(mount: MountId, e: Seq<u8>) -> Inode {
    Inode {
        mount,
        num: InodeNum((le16(e, 20) * 65536 + le16(e, 26)) as u64),
        kind: if e[11] & ATTR_DIRECTORY != 0 { InodeKind::Directory } else { InodeKind::File },
        size_bytes: le32(e, 28) as u64,
    }
}

pub fn entry_to_inode(mount: MountId, entry: &[u8]) -> (r: Inode)
    requires
        entry@.len() >= 32,
    ensures
        r == spec_entry_inode(mount, entry@),
{
    let lo = read_le16(entry, 26);
    let hi = read_le16(entry, 20);
    let size = read_le32(entry, 28) as u64;
    let kind = if entry[11] & ATTR_DIRECTORY != 0 { InodeKind::Directory } else { InodeKind::File };
    Inode { mount, num: InodeNum((hi as u64) * 65536 + lo as u64), kind, size_bytes: size }
}

} // verus!
