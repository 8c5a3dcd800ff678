//! Walking a FAT32 volume: `lookup`, `read` and `read_dir` as state
//! machines.  Each step says which sector it needs next; the caller reads
//! it from the block device and hands the bytes to the next step.

use vstd::prelude::*;
use crate::fat32::{
    Bpb, DirSlot, spec_dir_slot, classify_dir_slot, name_8_3, copy_8_3_name, spec_entry_inode, entry_to_inode,
    spec_next_cluster, decode_fat_entry, le32, read_le32, fat_entry_location,
};
use crate::vfs::{DirEntry, Inode, InodeKind, MountId, VfsError};
use crate::bytebuf::bytes_eq;

verus! {

/// Directory slots in one 512-byte sector.
pub const ENTRIES_PER_SECTOR: u64 = 16;

/// The parameter block describes 512-byte sectors and a cluster of 1 to
/// 255 sectors (the sector count is one byte on disk).
pub open spec fn bpb_usable(b: Bpb) -> bool {
    b.bytes_per_sector == 512 && 1 <= b.sectors_per_cluster <= 255
}

pub fn bpb_usable_exec(b: &Bpb) -> (r: bool)
    ensures
        r == bpb_usable(*b),
{
    b.bytes_per_sector == 512 && 1 <= b.sectors_per_cluster && b.sectors_per_cluster <= 255
}

/// Data cluster `c` exists and its sectors are addressable.
pub open spec fn cluster_in_range(b: Bpb, c: u32) -> bool {
    c >= 2 && b.data_start_sector + (c - 2) * b.sectors_per_cluster + b.sectors_per_cluster <= u32::MAX
}

/// First sector of data cluster `c`.
pub open spec fn first_sector_of(b: Bpb, c: u32) -> int {
    b.data_start_sector + (c - 2) * b.sectors_per_cluster
}

/// Bytes in a cluster.
pub open spec fn cluster_bytes(b: Bpb) -> int {
    512 * b.sectors_per_cluster
}

/// Directory slots in a cluster.
pub open spec fn cluster_entries(b: Bpb) -> int {
    16 * b.sectors_per_cluster
}

/// The 32 bytes of slot `e` of a directory sector.
pub open spec fn dir_slot_bytes(sector: Seq<u8>, e: int) -> Seq<u8> {
    sector.subrange(32 * e, 32 * e + 32)
}

/// What a walk needs next from the block device.
#[derive(Debug, Clone, Copy, PartialEq, Eq, Structural)]
pub enum WalkRead {
    /// A data sector.
    Sector(u64),
    /// The FAT sector holding the entry of the current cluster, and the
    /// entry's byte offset in it.
    Fat { lba: u64, offset: usize },
}

/// The FAT sector and offset of the entry for `c`.
pub open spec fn spec_fat_read(b: Bpb, c: u32) -> WalkRead {
    WalkRead::Fat { lba: (b.reserved_sectors + (c * 4) / 512) as u64, offset: ((c * 4) % 512) as usize }
}

fn fat_read(b: &Bpb, c: u32) -> (r: WalkRead)
    ensures
        r == spec_fat_read(*b, c),
        r matches WalkRead::Fat { offset, .. } && offset + 4 <= 512,
{
    let (lba, offset) = fat_entry_location(b.reserved_sectors, c);
    WalkRead::Fat { lba, offset }
}

fn sector_of(b: &Bpb, c: u32, k: u32) -> (r: u64)
    requires
        cluster_in_range(*b, c),
        k < b.sectors_per_cluster,
    ensures
        r == first_sector_of(*b, c) + k,
{
    assert((c - 2) * b.sectors_per_cluster + b.sectors_per_cluster <= u32::MAX);
    assert((c - 2) * b.sectors_per_cluster <= u32::MAX) by (nonlinear_arith)
        requires (c - 2) * b.sectors_per_cluster + b.sectors_per_cluster <= u32::MAX, b.sectors_per_cluster >= 0;
    let first = b.cluster_to_sector(c);
    first as u64 + k as u64
}

/// The cluster after the one whose FAT entry sits at `offset` of
/// `fat_sector`, or `None` at the end of the chain.
pub open spec fn spec_fat_next(fat_sector: Seq<u8>, offset: int) -> Option<u32> {
    spec_next_cluster(le32(fat_sector, offset) as u32)
}

pub fn fat_next(fat_sector: &[u8], offset: usize) -> (r: Option<u32>)
    requires
        offset + 4 <= fat_sector@.len(),
    ensures
        r == spec_fat_next(fat_sector@, offset as int),
{
    decode_fat_entry(read_le32(fat_sector, offset))
}

// ---- lookup ----------------------------------------------------------

/// Where a name lookup stands: the cluster being searched and the next
/// sector of it.
#[derive(Debug, Clone, Copy, PartialEq, Eq, Structural)]
pub struct LookupWalk {
    pub cluster: u32,
    pub sector: u32,
}

/// What one directory sector says of the name sought.
#[derive(Debug, Clone, Copy, PartialEq, Eq, Structural)]
pub enum LookupScan {
    Found(Inode),
    /// The end-of-directory mark came first.
    Missing,
    /// Neither: go on with the next sector.
    Continue,
}

/// Scan slots `e..16` of a directory sector for `name`: deleted, long-name
/// and volume-label slots are passed over, an end mark ends the search.
pub open spec fn spec_lookup_scan(mount: MountId, sector: Seq<u8>, name: Seq<u8>, e: int) -> LookupScan
    decreases 16 - e,
{
    if e < 0 || e >= 16 {
        LookupScan::Continue
    } else {
        let ent = dir_slot_bytes(sector, e);
        match spec_dir_slot(ent) {
            DirSlot::End => LookupScan::Missing,
            DirSlot::Skip => spec_lookup_scan(mount, sector, name, e + 1),
            DirSlot::Entry => if name_8_3(ent) == name {
                LookupScan::Found(spec_entry_inode(mount, ent))
            } else {
                spec_lookup_scan(mount, sector, name, e + 1)
            },
        }
    }
}

/// Start a lookup in `parent`: it must be a directory, and the search
/// begins at its first cluster.
pub fn lookup_start(parent: Inode) -> (r: Result<LookupWalk, VfsError>)
    ensures
        r == (if parent.kind != InodeKind::Directory {
            Err::<LookupWalk, VfsError>(VfsError::NotADirectory)
        } else {
            Ok(LookupWalk { cluster: parent.num.0 as u32, sector: 0 })
        }),
{
    match parent.kind {
        InodeKind::Directory => Ok(LookupWalk { cluster: parent.num.0 as u32, sector: 0 }),
        _ => Err(VfsError::NotADirectory),
    }
}

/// The next read of a lookup: the next sector of the cluster, or its FAT
/// entry once the cluster's sectors are spent.
pub fn lookup_next(bpb: &Bpb, w: LookupWalk) -> (r: WalkRead)
    requires
        bpb_usable(*bpb),
        cluster_in_range(*bpb, w.cluster),
    ensures
        r == (if w.sector < bpb.sectors_per_cluster {
            WalkRead::Sector((first_sector_of(*bpb, w.cluster) + w.sector) as u64)
        } else {
            spec_fat_read(*bpb, w.cluster)
        }),
{
    if w.sector < bpb.sectors_per_cluster {
        WalkRead::Sector(sector_of(bpb, w.cluster, w.sector))
    } else {
        fat_read(bpb, w.cluster)
    }
}

/// Search one directory sector for `name`; on `Continue` the walk moves to
/// the next sector.
pub fn lookup_sector(mount: MountId, w: &mut LookupWalk, sector: &[u8], name: &[u8]) -> (r: LookupScan)
    requires
        sector@.len() == 512,
        old(w).sector < u32::MAX,
    ensures
        r == spec_lookup_scan(mount, sector@, name@, 0),
        final(w).cluster == old(w).cluster,
        final(w).sector == (if r is Continue { old(w).sector + 1 } else { old(w).sector as int }),
{
    let mut e: usize = 0;
    while e < 16
        invariant
            sector@.len() == 512,
            e <= 16,
            spec_lookup_scan(mount, sector@, name@, 0) == spec_lookup_scan(mount, sector@, name@, e as int),
        decreases 16 - e,
    {
        let ent = vstd::slice::slice_subrange(sector, 32 * e, 32 * e + 32);
        assert(ent@ == dir_slot_bytes(sector@, e as int));
        match classify_dir_slot(ent) {
            DirSlot::End => return LookupScan::Missing,
            DirSlot::Skip => {},
            DirSlot::Entry => {
                let mut buf = [0u8; 64];
                let n = copy_8_3_name(ent, &mut buf);
                let shown = vstd::slice::slice_subrange(buf.as_slice(), 0, n as usize);
                if bytes_eq(shown, name) {
                    return LookupScan::Found(entry_to_inode(mount, ent));
                }
            },
        }
        e = e + 1;
    }
    w.sector = w.sector + 1;
    LookupScan::Continue
}

/// After the cluster's sectors: follow the chain to the next cluster
/// (`true`), or report that the chain ended (`false`: not found).
pub fn lookup_follow(w: &mut LookupWalk, fat_sector: &[u8], offset: usize) -> (r: bool)
    requires
        offset + 4 <= fat_sector@.len(),
    ensures
        r == spec_fat_next(fat_sector@, offset as int) is Some,
        r ==> *final(w) == (LookupWalk { cluster: spec_fat_next(fat_sector@, offset as int)->Some_0, sector: 0 }),
        !r ==> *final(w) == *old(w),
{
    match fat_next(fat_sector, offset) {
        Some(c) => {
            *w = LookupWalk { cluster: c, sector: 0 };
            true
        },
        None => false,
    }
}

// ---- read ------------------------------------------------------------

/// Where a file read stands: the current cluster, the byte offset in it,
/// the bytes copied so far out of `want`, and clusters still to skip
/// before copying starts.
#[derive(Debug, Clone, Copy, PartialEq, Eq, Structural)]
pub struct ReadWalk {
    pub cluster: u32,
    pub cur_off: u64,
    pub written: usize,
    pub want: usize,
    pub skip: u64,
}

/// The plan of a read of `out_len` bytes at `offset`: nothing past the end
/// of the file; else `min(size - offset, out_len)` bytes, starting
/// `offset / cluster_bytes` clusters into the chain at `offset %
/// cluster_bytes`.
pub open spec fn spec_read_plan(b: Bpb, inode: Inode, offset: u64, out_len: usize) -> Result<ReadWalk, VfsError> {
    if inode.kind != InodeKind::File {
        Err(VfsError::NotAFile)
    } else {
        let want = if inode.size_bytes - offset < out_len { inode.size_bytes - offset } else { out_len as int };
        if offset >= inode.size_bytes || want == 0 {
            Ok(ReadWalk { cluster: inode.num.0 as u32, cur_off: 0, written: 0, want: 0, skip: 0 })
        } else {
            Ok(ReadWalk {
                cluster: inode.num.0 as u32,
                cur_off: (offset % (cluster_bytes(b) as u64)) as u64,
                written: 0,
                want: want as usize,
                skip: (offset / (cluster_bytes(b) as u64)) as u64,
            })
        }
    }
}

pub fn read_plan(bpb: &Bpb, inode: Inode, offset: u64, out_len: usize) -> (r: Result<ReadWalk, VfsError>)
    requires
        bpb_usable(*bpb),
    ensures
        r == spec_read_plan(*bpb, inode, offset, out_len),
        r matches Ok(w) ==> w.cur_off < cluster_bytes(*bpb),
{
    match inode.kind {
        InodeKind::File => {},
        _ => return Err(VfsError::NotAFile),
    }
    if offset >= inode.size_bytes {
        return Ok(ReadWalk { cluster: inode.num.0 as u32, cur_off: 0, written: 0, want: 0, skip: 0 });
    }
    let rest = inode.size_bytes - offset;
    let want: usize = if rest < out_len as u64 { rest as usize } else { out_len };
    if want == 0 {
        return Ok(ReadWalk { cluster: inode.num.0 as u32, cur_off: 0, written: 0, want: 0, skip: 0 });
    }
    let cb: u64 = 512 * bpb.sectors_per_cluster as u64;
    Ok(ReadWalk { cluster: inode.num.0 as u32, cur_off: offset % cb, written: 0, want, skip: offset / cb })
}

/// What a read does next.
#[derive(Debug, Clone, Copy, PartialEq, Eq, Structural)]
pub enum ReadAction {
    Read(WalkRead),
    /// The read is over; `written` bytes were copied.
    Done,
}

/// Skip clusters by their FAT entries first; then, while bytes are owed,
/// read the sector holding the current offset, or the FAT entry once the
/// cluster is spent.
pub open spec fn spec_read_next(b: Bpb, w: ReadWalk) -> ReadAction {
    if w.skip > 0 {
        ReadAction::Read(spec_fat_read(b, w.cluster))
    } else if w.written >= w.want {
        ReadAction::Done
    } else if w.cur_off < cluster_bytes(b) {
        ReadAction::Read(WalkRead::Sector((first_sector_of(b, w.cluster) + w.cur_off / 512) as u64))
    } else {
        ReadAction::Read(spec_fat_read(b, w.cluster))
    }
}

pub fn read_next(bpb: &Bpb, w: ReadWalk) -> (r: ReadAction)
    requires
        bpb_usable(*bpb),
        w.skip == 0 && w.written < w.want && w.cur_off < cluster_bytes(*bpb) ==> cluster_in_range(*bpb, w.cluster),
    ensures
        r == spec_read_next(*bpb, w),
{
    let cb: u64 = 512 * bpb.sectors_per_cluster as u64;
    if w.skip > 0 {
        ReadAction::Read(fat_read(bpb, w.cluster))
    } else if w.written >= w.want {
        ReadAction::Done
    } else if w.cur_off < cb {
        let k = (w.cur_off / 512) as u32;
        ReadAction::Read(WalkRead::Sector(sector_of(bpb, w.cluster, k)))
    } else {
        ReadAction::Read(fat_read(bpb, w.cluster))
    }
}

/// Copy from a data sector: from the current offset to the end of the
/// sector or of what is owed, whichever comes first.
pub fn read_sector_step(bpb: &Bpb, w: &mut ReadWalk, sector: &[u8], out: &mut Vec<u8>)
    requires
        bpb_usable(*bpb),
        sector@.len() == 512,
        old(w).skip == 0,
        old(w).written < old(w).want,
        old(w).cur_off < cluster_bytes(*bpb),
        old(out)@.len() == old(w).written,
    ensures
        ({
            let i = old(w).cur_off % 512;
            let chunk = if 512 - i < old(w).want - old(w).written { 512 - i } else { old(w).want - old(w).written };
            &&& final(out)@ == old(out)@ + sector@.subrange(i as int, i + chunk)
            &&& *final(w) == (ReadWalk { written: (old(w).written + chunk) as usize,
                cur_off: (old(w).cur_off + chunk) as u64, ..*old(w) })
        }),
        final(out)@.len() == final(w).written,
{
    let i: usize = (w.cur_off % 512) as usize;
    let owed: usize = w.want - w.written;
    let chunk: usize = if 512 - i < owed { 512 - i } else { owed };
    let part = vstd::slice::slice_subrange(sector, i, i + chunk);
    let mut k: usize = 0;
    let ghost start = out@;
    while k < chunk
        invariant
            k <= chunk,
            i + chunk <= 512,
            sector@.len() == 512,
            part@.len() == chunk,
            part@ == sector@.subrange(i as int, i + chunk),
            out@ == start + part@.subrange(0, k as int),
        decreases chunk - k,
    {
        out.push(part[k]);
        proof { assert(part@.subrange(0, k + 1) =~= part@.subrange(0, k as int).push(part@[k as int])); }
        k = k + 1;
    }
    assert(part@.subrange(0, chunk as int) =~= part@);
    w.written = w.written + chunk;
    w.cur_off = w.cur_off + chunk as u64;
}

/// After a FAT entry: while skipping, move to the next cluster of the
/// chain (a chain that ends first makes the read empty); while copying, go
/// on at the start of the next cluster, or stop short if the chain ended.
/// `false` means the read is over.
pub fn read_follow(w: &mut ReadWalk, fat_sector: &[u8], offset: usize) -> (r: bool)
    requires
        offset + 4 <= fat_sector@.len(),
    ensures
        r == spec_fat_next(fat_sector@, offset as int) is Some,
        r && old(w).skip > 0 ==> *final(w) == (ReadWalk {
            cluster: spec_fat_next(fat_sector@, offset as int)->Some_0, skip: (old(w).skip - 1) as u64, ..*old(w) }),
        r && old(w).skip == 0 ==> *final(w) == (ReadWalk {
            cluster: spec_fat_next(fat_sector@, offset as int)->Some_0, cur_off: 0, ..*old(w) }),
        !r ==> *final(w) == *old(w),
{
    match fat_next(fat_sector, offset) {
        Some(c) => {
            if w.skip > 0 {
                w.cluster = c;
                w.skip = w.skip - 1;
            } else {
                w.cluster = c;
                w.cur_off = 0;
            }
            true
        },
        None => false,
    }
}

/// What a read that ended reports: nothing if it ended while still
/// skipping (the offset lay past the chain), else the bytes copied.
pub fn read_result(w: ReadWalk) -> (r: usize)
    ensures
        r == (if w.skip > 0 { 0 } else { w.written }),
{
    if w.skip > 0 { 0 } else { w.written }
}

// ---- read_dir --------------------------------------------------------

/// Where a directory listing stands: the cluster and the slot index in it.
#[derive(Debug, Clone, Copy, PartialEq, Eq, Structural)]
pub struct DirWalk {
    pub cluster: u32,
    pub idx: u64,
}

/// A listing resumes where `cursor` says: 0 is the directory's first
/// cluster at slot 0, any other value holds the cluster in its high 32 bits
/// and the slot in its low 32 bits.
pub open spec fn spec_read_dir_start(dir: Inode, cursor: u64) -> Result<DirWalk, VfsError> {
    if dir.kind != InodeKind::Directory {
        Err(VfsError::NotADirectory)
    } else if cursor == 0 {
        Ok(DirWalk { cluster: dir.num.0 as u32, idx: 0 })
    } else {
        Ok(DirWalk { cluster: (cursor / 0x1_0000_0000) as u32, idx: cursor % 0x1_0000_0000 })
    }
}

pub fn read_dir_start(dir: Inode, cursor: u64) -> (r: Result<DirWalk, VfsError>)
    ensures
        r == spec_read_dir_start(dir, cursor),
{
    match dir.kind {
        InodeKind::Directory => {},
        _ => return Err(VfsError::NotADirectory),
    }
    if cursor == 0 {
        Ok(DirWalk { cluster: dir.num.0 as u32, idx: 0 })
    } else {
        let hi = (cursor >> 32u64) as u32;
        let lo = cursor & 0xFFFF_FFFFu64;
        assert(hi == (cursor / 0x1_0000_0000) as u32 && lo == cursor % 0x1_0000_0000) by (bit_vector)
            requires hi == (cursor >> 32u64) as u32, lo == cursor & 0xFFFF_FFFFu64;
        Ok(DirWalk { cluster: hi, idx: lo })
    }
}

/// The cursor that resumes at slot `idx` of cluster `c`.
pub open spec fn dir_cursor(c: u32, idx: u64) -> u64 {
    (c * 0x1_0000_0000 + idx) as u64
}

/// What a listing does next.
#[derive(Debug, Clone, Copy, PartialEq, Eq, Structural)]
pub enum DirAction {
    Read(WalkRead),
    /// The listing is over; resume with this cursor (`u64::MAX`: nothing
    /// left).
    Done(u64),
}

/// While the cluster has slots left and the caller has room, read the
/// sector holding the current slot; with no room left inside the cluster,
/// stop there; otherwise read the cluster's FAT entry.
pub open spec fn spec_read_dir_next(b: Bpb, w: DirWalk, written: int, room: int) -> DirAction {
    if w.idx < cluster_entries(b) && written < room {
        DirAction::Read(WalkRead::Sector((first_sector_of(b, w.cluster) + w.idx / 16) as u64))
    } else if w.idx < cluster_entries(b) {
        DirAction::Done(dir_cursor(w.cluster, w.idx))
    } else {
        DirAction::Read(spec_fat_read(b, w.cluster))
    }
}

pub fn read_dir_next(bpb: &Bpb, w: DirWalk, written: usize, room: usize) -> (r: DirAction)
    requires
        bpb_usable(*bpb),
        w.idx < cluster_entries(*bpb) && written < room ==> cluster_in_range(*bpb, w.cluster),
    ensures
        r == spec_read_dir_next(*bpb, w, written as int, room as int),
{
    let ce: u64 = 16 * bpb.sectors_per_cluster as u64;
    if w.idx < ce && written < room {
        DirAction::Read(WalkRead::Sector(sector_of(bpb, w.cluster, (w.idx / 16) as u32)))
    } else if w.idx < ce {
        let c = w.cluster;
        let i = w.idx;
        let cur = ((c as u64) << 32u64) | i;
        assert(cur == (c * 0x1_0000_0000 + i) as u64) by (bit_vector)
            requires cur == ((c as u64) << 32u64) | i, i < 0x1_0000_0000u64;
        DirAction::Done(cur)
    } else {
        DirAction::Read(fat_read(bpb, w.cluster))
    }
}

/// The listing entry of a short-name slot: its inode, and its displayed
/// name padded with zero bytes.
pub open spec fn is_dir_entry_of(de: DirEntry, mount: MountId, ent: Seq<u8>) -> bool {
    &&& de.inode == spec_entry_inode(mount, ent)
    &&& de.name_len as int == name_8_3(ent).len()
    &&& de.name@.subrange(0, de.name_len as int) == name_8_3(ent)
    &&& forall|i: int| de.name_len <= i < 64 ==> de.name@[i] == 0
}

/// Scan slots `idx..lim` of a directory sector with room for `room` more
/// entries: the short-name slots taken (in order), the slot reached, and
/// whether the end mark was met.
pub open spec fn dir_scan(sector: Seq<u8>, idx: int, lim: int, room: int) -> (Seq<Seq<u8>>, int, bool)
    decreases lim - idx,
{
    if idx >= lim || room <= 0 {
        (Seq::empty(), idx, false)
    } else {
        let ent = dir_slot_bytes(sector, idx % 16);
        match spec_dir_slot(ent) {
            DirSlot::End => (Seq::empty(), idx, true),
            DirSlot::Skip => dir_scan(sector, idx + 1, lim, room),
            DirSlot::Entry => {
                let r = dir_scan(sector, idx + 1, lim, room - 1);
                (seq![ent] + r.0, r.1, r.2)
            },
        }
    }
}

/// The slot after the last one this sector holds, or the end of the
/// cluster.
pub open spec fn sector_limit(b: Bpb, idx: int) -> int {
    let end = (idx / 16) * 16 + 16;
    if end < cluster_entries(b) { end } else { cluster_entries(b) }
}

/// List the slots of the sector read for the current slot, up to the
/// sector's end, the cluster's end or the caller's `room`: an end mark
/// finishes the listing (`Some(u64::MAX)`), passed-over slots are skipped.
pub fn read_dir_sector(bpb: &Bpb, mount: MountId, w: &mut DirWalk, sector: &[u8], out: &mut Vec<DirEntry>, room: usize)
    -> (r: Option<u64>)
    requires
        bpb_usable(*bpb),
        sector@.len() == 512,
        old(w).idx < cluster_entries(*bpb),
        old(out)@.len() < room,
    ensures
        ({
            let (ents, ni, ended) = dir_scan(sector@, old(w).idx as int, sector_limit(*bpb, old(w).idx as int),
                room - old(out)@.len());
            &&& final(out)@.len() == old(out)@.len() + ents.len()
            &&& final(out)@.subrange(0, old(out)@.len() as int) == old(out)@
            &&& forall|k: int| 0 <= k < ents.len() ==> is_dir_entry_of(#[trigger] final(out)@[old(out)@.len() + k], mount, ents[k])
            &&& *final(w) == (DirWalk { idx: ni as u64, ..*old(w) })
            &&& r == (if ended { Some(u64::MAX) } else { None::<u64> })
        }),
{
    let ce: u64 = 16 * bpb.sectors_per_cluster as u64;
    let end: u64 = (w.idx / 16) * 16 + 16;
    let lim: u64 = if end < ce { end } else { ce };
    let ghost idx0 = w.idx as int;
    let ghost room0 = room - out@.len();
    let ghost out0 = out@;
    let ghost mut taken: Seq<Seq<u8>> = Seq::empty();
    assert(lim == sector_limit(*bpb, idx0));
    while w.idx < lim && out.len() < room
        invariant
            sector@.len() == 512,
            lim <= ce,
            lim == sector_limit(*bpb, idx0),
            room0 == room - out0.len(),
            idx0 == old(w).idx,
            out0 == old(out)@,
            idx0 <= w.idx <= lim,
            lim <= (idx0 / 16) * 16 + 16,
            (idx0 / 16) * 16 <= idx0,
            w.cluster == old(w).cluster,
            out0.len() <= out@.len() <= room,
            out@.len() == out0.len() + taken.len(),
            out@.subrange(0, out0.len() as int) == out0,
            forall|k: int| 0 <= k < taken.len() ==> is_dir_entry_of(#[trigger] out@[out0.len() + k], mount, taken[k]),
            ({
                let total = dir_scan(sector@, idx0, lim as int, room0);
                let cur = dir_scan(sector@, w.idx as int, lim as int, room - out@.len());
                total.0 == taken + cur.0 && total.1 == cur.1 && total.2 == cur.2
            }),
        decreases lim - w.idx,
    {
        let e: usize = (w.idx % 16) as usize;
        let ent = vstd::slice::slice_subrange(sector, 32 * e, 32 * e + 32);
        assert(ent@ == dir_slot_bytes(sector@, w.idx as int % 16));
        match classify_dir_slot(ent) {
            DirSlot::End => {
                proof {
                    assert(dir_scan(sector@, w.idx as int, lim as int, room - out@.len()) == (Seq::<Seq<u8>>::empty(), w.idx as int, true));
                    assert(taken + Seq::<Seq<u8>>::empty() =~= taken);
                    let ents = dir_scan(sector@, idx0, lim as int, room0).0;
                    assert(ents == taken);
                    assert forall|k: int| 0 <= k < ents.len() implies is_dir_entry_of(#[trigger] out@[out0.len() + k], mount, ents[k]) by {
                        assert(ents[k] == taken[k]);
                    }
                }
                return Some(u64::MAX);
            },
            DirSlot::Skip => {
                w.idx = w.idx + 1;
            },
            DirSlot::Entry => {
                let mut de = DirEntry::empty();
                let ghost nm0 = de.name@;
                let n = copy_8_3_name(ent, &mut de.name);
                de.name_len = n;
                de.inode = entry_to_inode(mount, ent);
                proof {
                    assert forall|i: int| n <= i < 64 implies de.name@[i] == 0 by {
                        assert(de.name@.subrange(n as int, 64)[i - n] == nm0.subrange(n as int, 64)[i - n]);
                    }
                }
                let ghost before = out@;
                out.push(de);
                proof {
                    assert(is_dir_entry_of(de, mount, ent@));
                    assert(seq![ent@] + dir_scan(sector@, w.idx + 1, lim as int, room - before.len() - 1).0
                        == dir_scan(sector@, w.idx as int, lim as int, room - before.len()).0);
                    taken = taken.push(ent@);
                    assert(taken.subrange(0, taken.len() - 1) + seq![ent@] =~= taken);
                    assert(out@.subrange(0, out0.len() as int) =~= before.subrange(0, out0.len() as int));
                    assert forall|k: int| 0 <= k < taken.len() implies is_dir_entry_of(#[trigger] out@[out0.len() + k], mount, taken[k]) by {
                        if k < taken.len() - 1 {
                            assert(out@[out0.len() + k] == before[out0.len() + k]);
                        }
                    }
                }
                w.idx = w.idx + 1;
            },
        }
    }
    None
}

/// After the cluster's FAT entry: with no room left, the listing ends with
/// a cursor at the next cluster (or `u64::MAX` at the chain's end); with
/// room, it goes on at slot 0 of the next cluster, or ends at the chain's
/// end.
pub fn read_dir_follow(w: &mut DirWalk, written: usize, room: usize, fat_sector: &[u8], offset: usize) -> (r: Option<u64>)
    requires
        offset + 4 <= fat_sector@.len(),
    ensures
        ({
            let next = spec_fat_next(fat_sector@, offset as int);
            if written >= room {
                &&& r == Some(match next { Some(c) => dir_cursor(c, 0), None => u64::MAX })
                &&& *final(w) == *old(w)
            } else {
                match next {
                    Some(c) => r is None && *final(w) == (DirWalk { cluster: c, idx: 0 }),
                    None => r == Some(u64::MAX) && *final(w) == *old(w),
                }
            }
        }),
{
    let next = fat_next(fat_sector, offset);
    if written >= room {
        match next {
            Some(c) => {
                let cur = (c as u64) << 32u64;
                assert(cur == (c * 0x1_0000_0000 + 0) as u64) by (bit_vector)
                    requires cur == (c as u64) << 32u64;
                Some(cur)
            },
            None => Some(u64::MAX),
        }
    } else {
        match next {
            Some(c) => {
                *w = DirWalk { cluster: c, idx: 0 };
                None
            },
            None => Some(u64::MAX),
        }
    }
}

} // verus!

verus! {

/// A live short-name slot: not the end mark, not deleted, not a long-name
/// piece, not the volume label.
pub open spec fn live_slot(e: Seq<u8>) -> bool {
    e[0] != 0 && e[0] != 0xE5 && e[11] != 0x0F && e[11] & 0x08 == 0
}

/// A slot whose first byte is 0xE5 (a deleted file) is passed over whatever
/// its attribute byte says; a slot is taken as an entry exactly when it is
/// live.
pub proof fn lemma_dir_slot_kinds(e: Seq<u8>)
    requires
        e.len() >= 12,
    ensures
        e[0] == 0xE5 ==> spec_dir_slot(e) == DirSlot::Skip,
        e[0] == 0 ==> spec_dir_slot(e) == DirSlot::End,
        (spec_dir_slot(e) == DirSlot::Entry) == live_slot(e),
{
}

/// Every entry a listing takes from a sector comes from a live slot of it:
/// deleted files, long-name pieces and the volume label are never listed.
pub proof fn lemma_listed_slots_live(sector: Seq<u8>, idx: int, lim: int, room: int)
    requires
        sector.len() == 512,
        0 <= idx,
    ensures
        forall|k: int| 0 <= k < dir_scan(sector, idx, lim, room).0.len() ==> {
            let e = #[trigger] dir_scan(sector, idx, lim, room).0[k];
            &&& e.len() == 32
            &&& live_slot(e)
            &&& exists|j: int| 0 <= j < 16 && e == dir_slot_bytes(sector, j)
        },
    decreases lim - idx,
{
    if idx >= lim || room <= 0 {
    } else {
        let ent = dir_slot_bytes(sector, idx % 16);
        match spec_dir_slot(ent) {
            DirSlot::End => {},
            DirSlot::Skip => {
                lemma_listed_slots_live(sector, idx + 1, lim, room);
                assert(dir_scan(sector, idx, lim, room) == dir_scan(sector, idx + 1, lim, room));
            },
            DirSlot::Entry => {
                lemma_listed_slots_live(sector, idx + 1, lim, room - 1);
                assert(live_slot(ent));
                assert(dir_scan(sector, idx, lim, room).0 == seq![ent] + dir_scan(sector, idx + 1, lim, room - 1).0);
                let r = dir_scan(sector, idx + 1, lim, room - 1);
                let all = seq![ent] + r.0;
                assert forall|k: int| 0 <= k < all.len() implies {
                    let e = #[trigger] all[k];
                    &&& e.len() == 32
                    &&& live_slot(e)
                    &&& exists|j: int| 0 <= j < 16 && e == dir_slot_bytes(sector, j)
                } by {
                    if k == 0 {
                        assert(all[0] == ent);
                        assert(ent == dir_slot_bytes(sector, idx % 16));
                    } else {
                        assert(all[k] == r.0[k - 1]);
                    }
                }
            },
        }
    }
}

/// A lookup only ever finds a live slot whose displayed name is the one
/// asked for, and reports that slot's inode.
pub proof fn lemma_lookup_finds_live_match(mount: MountId, sector: Seq<u8>, name: Seq<u8>, e: int)
    requires
        sector.len() == 512,
        0 <= e,
    ensures
        spec_lookup_scan(mount, sector, name, e) matches LookupScan::Found(ino) ==>
            exists|j: int| e <= j < 16 && #[trigger] live_slot(dir_slot_bytes(sector, j))
                && name_8_3(dir_slot_bytes(sector, j)) == name
                && ino == spec_entry_inode(mount, dir_slot_bytes(sector, j)),
    decreases 16 - e,
{
    if e < 16 {
        lemma_lookup_finds_live_match(mount, sector, name, e + 1);
        let ent = dir_slot_bytes(sector, e);
        if spec_dir_slot(ent) == DirSlot::Entry && name_8_3(ent) == name {
            assert(live_slot(ent));
        }
    }
}

} // verus!
