use gos_kernel::fat32::walk::{
    lookup_follow, lookup_next, lookup_sector, lookup_start, read_dir_follow, read_dir_next, read_dir_sector,
    read_dir_start, read_follow, read_next, read_plan, read_result, read_sector_step, DirAction, LookupScan,
    ReadAction, WalkRead,
};
use gos_kernel::fat32::Bpb;
use gos_kernel::vfs::{DirEntry, Inode, InodeKind, InodeNum, MountId, VfsError};

const M: MountId = MountId(3);

fn bpb() -> Bpb {
    Bpb {
        bytes_per_sector: 512,
        sectors_per_cluster: 1,
        reserved_sectors: 1,
        num_fats: 1,
        sectors_per_fat: 1,
        root_cluster: 2,
        total_sectors: 64,
        data_start_sector: 2,
    }
}

fn slot(d: &mut [u8], e: usize, name: &[u8; 11], attr: u8, cluster: u32, size: u32) {
    let o = e * 32;
    d[o..o + 11].copy_from_slice(name);
    d[o + 11] = attr;
    d[o + 20..o + 22].copy_from_slice(&((cluster >> 16) as u16).to_le_bytes());
    d[o + 26..o + 28].copy_from_slice(&(cluster as u16).to_le_bytes());
    d[o + 28..o + 32].copy_from_slice(&size.to_le_bytes());
}

/// Sector 1: FAT (2 -> 5 -> end, 3 -> 4 -> end); cluster 2 (sector 2) and 5
/// (sector 5) hold the root directory; clusters 3, 4 a 700-byte file.
fn disk() -> Vec<[u8; 512]> {
    let mut d = vec![[0u8; 512]; 8];
    let fat: [(u32, u32); 4] = [(2, 5), (5, 0x0FFF_FFFF), (3, 4), (4, 0x0FFF_FFF8)];
    for (c, v) in fat {
        d[1][(c * 4) as usize..(c * 4 + 4) as usize].copy_from_slice(&v.to_le_bytes());
    }
    slot(&mut d[2], 0, b"HELLO   TXT", 0x20, 3, 700);
    slot(&mut d[2], 1, b"AB         ", 0x0F, 0, 0);
    slot(&mut d[2], 2, b"VOLUME     ", 0x08, 0, 0);
    d[2][3 * 32] = 0xE5;
    slot(&mut d[2], 4, b"DOCS       ", 0x10, 6, 0);
    for e in 5..16 {
        slot(&mut d[2], e, b"FILLER  BIN", 0x20, 7, 1);
    }
    slot(&mut d[5], 0, b"LAST    MD ", 0x20, 7, 3);
    for i in 0..512 {
        d[3][i] = (i % 251) as u8;
        d[4][i] = 100;
    }
    d
}

fn root() -> Inode {
    Inode { mount: M, num: InodeNum(2), kind: InodeKind::Directory, size_bytes: 0 }
}

fn lookup(d: &[[u8; 512]], name: &[u8]) -> Result<Inode, VfsError> {
    let b = bpb();
    let mut w = lookup_start(root())?;
    loop {
        match lookup_next(&b, w) {
            WalkRead::Sector(lba) => match lookup_sector(M, &mut w, &d[lba as usize], name) {
                LookupScan::Found(i) => return Ok(i),
                LookupScan::Missing => return Err(VfsError::NotFound),
                LookupScan::Continue => {},
            },
            WalkRead::Fat { lba, offset } => {
                if !lookup_follow(&mut w, &d[lba as usize], offset) {
                    return Err(VfsError::NotFound);
                }
            },
        }
    }
}

fn read(d: &[[u8; 512]], inode: Inode, offset: u64, len: usize) -> Result<Vec<u8>, VfsError> {
    let b = bpb();
    let mut w = read_plan(&b, inode, offset, len)?;
    let mut got = Vec::new();
    loop {
        match read_next(&b, w) {
            ReadAction::Done => break,
            ReadAction::Read(WalkRead::Sector(lba)) => read_sector_step(&b, &mut w, &d[lba as usize], &mut got),
            ReadAction::Read(WalkRead::Fat { lba, offset }) => {
                if !read_follow(&mut w, &d[lba as usize], offset) {
                    break;
                }
            },
        }
    }
    got.truncate(read_result(w));
    Ok(got)
}

fn list(d: &[[u8; 512]], cursor: u64, room: usize) -> Result<(Vec<DirEntry>, u64), VfsError> {
    let b = bpb();
    let mut w = read_dir_start(root(), cursor)?;
    let mut out = Vec::new();
    loop {
        match read_dir_next(&b, w, out.len(), room) {
            DirAction::Done(c) => return Ok((out, c)),
            DirAction::Read(WalkRead::Sector(lba)) => {
                if let Some(c) = read_dir_sector(&b, M, &mut w, &d[lba as usize], &mut out, room) {
                    return Ok((out, c));
                }
            },
            DirAction::Read(WalkRead::Fat { lba, offset }) => {
                let n = out.len();
                if let Some(c) = read_dir_follow(&mut w, n, room, &d[lba as usize], offset) {
                    return Ok((out, c));
                }
            },
        }
    }
}

#[test]
fn fat_lookup_walks_the_root_chain() {
    let d = disk();
    let f = lookup(&d, b"HELLO.TXT").unwrap();
    assert_eq!(f, Inode { mount: M, num: InodeNum(3), kind: InodeKind::File, size_bytes: 700 });
    assert_eq!(lookup(&d, b"DOCS").unwrap().kind, InodeKind::Directory);
    assert_eq!(lookup(&d, b"LAST.MD").unwrap().size_bytes, 3);
    assert_eq!(lookup(&d, b"AB"), Err(VfsError::NotFound));
    assert_eq!(lookup(&d, b"NOPE"), Err(VfsError::NotFound));
    assert_eq!(lookup_start(f), Err(VfsError::NotADirectory));
}

#[test]
fn fat_read_follows_clusters_and_stops_at_size() {
    let d = disk();
    let f = lookup(&d, b"HELLO.TXT").unwrap();
    let all = read(&d, f, 0, 4096).unwrap();
    assert_eq!(all.len(), 700);
    assert_eq!(all[0], 0);
    assert_eq!(all[300], (300 % 251) as u8);
    assert_eq!(all[512], 100);
    let tail = read(&d, f, 510, 4).unwrap();
    assert_eq!(tail, vec![(510 % 251) as u8, (511 % 251) as u8, 100, 100]);
    assert_eq!(read(&d, f, 600, 10).unwrap(), vec![100; 10]);
    assert_eq!(read(&d, f, 700, 10).unwrap().len(), 0);
    assert_eq!(read(&d, root(), 0, 10), Err(VfsError::NotAFile));
    let short = Inode { size_bytes: 5000, ..f };
    assert_eq!(read(&d, short, 0, 5000).unwrap().len(), 1024);
    assert_eq!(read(&d, short, 2048, 10).unwrap().len(), 0);
}

#[test]
fn fat_read_dir_skips_slots_and_resumes() {
    let d = disk();
    let (all, c) = list(&d, 0, 64).unwrap();
    assert_eq!(c, u64::MAX);
    assert_eq!(all.len(), 1 + 1 + 11 + 1);
    assert_eq!(all[0].name(), b"HELLO.TXT");
    assert_eq!(all[1].name(), b"DOCS");
    assert_eq!(all[13].name(), b"LAST.MD");
    let (first, c1) = list(&d, 0, 2).unwrap();
    assert_eq!(first.len(), 2);
    assert_eq!(c1, (2u64 << 32) | 5);
    let (rest, c2) = list(&d, c1, 64).unwrap();
    assert_eq!(rest.len(), 12);
    assert_eq!(c2, u64::MAX);
    let (page, c3) = list(&d, 0, 13).unwrap();
    assert_eq!(page.len(), 13);
    assert_eq!(c3, 5u64 << 32);
    let file = Inode { kind: InodeKind::File, ..root() };
    assert!(read_dir_start(file, 0).is_err());
}
