use gos_kernel::assets::{sphere_for, FontAtlas, PalTexture, SphereClass};
use gos_kernel::bytebuf::dec_vec;
use gos_kernel::fat32::{
    classify_dir_slot, copy_8_3_name, decode_fat_entry, entry_to_inode, fat_entry_location, Bpb, DirSlot,
};
use gos_kernel::heap_verify::{
    invariant_charge_heap_monotonic_under_sweep, invariant_credit_heap_no_underflow, pick_u32_sweep,
};
use gos_kernel::protocol::VectorAddress;
use gos_kernel::vfs::{BlockIoStatus, DirEntry, InodeKind, InodeNum, MountId, VfsError};

#[test]
fn dec_vec_renders_digits() {
    assert_eq!(dec_vec(0), b"0".to_vec());
    assert_eq!(dec_vec(7), b"7".to_vec());
    assert_eq!(dec_vec(1234567890), b"1234567890".to_vec());
    assert_eq!(dec_vec(u64::MAX), b"18446744073709551615".to_vec());
}

#[test]
fn vector_literal_parses_four_fields() {
    assert_eq!(VectorAddress::parse(b"6.2.0.0"), Some(VectorAddress::new(6, 2, 0, 0)));
    assert_eq!(VectorAddress::parse(b"65535.1.22.333"), Some(VectorAddress::new(65535, 1, 22, 333)));
    assert_eq!(VectorAddress::parse(b"1.2.3"), None);
    assert_eq!(VectorAddress::parse(b"1.2.3.4.5"), None);
    assert_eq!(VectorAddress::parse(b"1.2.3.65536"), None);
    assert_eq!(VectorAddress::parse(b"1..3.4"), None);
    assert_eq!(VectorAddress::parse(b"1.2.x.4"), None);
    assert_eq!(VectorAddress::parse(b"000001.2.3.4"), None);
}

#[test]
fn pal_texture_samples_inside_and_zero_outside() {
    let blob = [b'G', b'A', 2, 2, 10, 11, 12, 13];
    let t = PalTexture::from_blob(&blob);
    assert_eq!((t.width, t.height), (2, 2));
    assert_eq!(t.sample(0, 0), 10);
    assert_eq!(t.sample(1, 1), 13);
    assert_eq!(t.sample(0, 1), 12);
    assert_eq!(t.sample(2, 0), 0);
    assert_eq!(t.sample(0, 5), 0);
}

#[test]
fn font_atlas_parses_header_and_finds_cells() {
    let mut blob = vec![b'F', b'A', 4, 6, 0x41, 3, 8, 0];
    blob.extend((0..48u8).map(|v| v));
    let f = FontAtlas::from_blob(&blob);
    assert_eq!((f.cell_w, f.cell_h, f.char_first, f.char_count, f.atlas_w), (4, 6, 0x41, 3, 8));
    assert_eq!(f.alpha.len(), 48);
    let a = f.glyph(b'A').unwrap();
    assert_eq!((a.atlas_x, a.atlas_y, a.w, a.h), (0, 0, 4, 6));
    let b = f.glyph(b'B').unwrap();
    assert_eq!((b.atlas_x, b.atlas_y), (4, 0));
    let c = f.glyph(b'C').unwrap();
    assert_eq!((c.atlas_x, c.atlas_y), (0, 6));
    assert!(f.glyph(b'D').is_none());
    assert!(f.glyph(b'@').is_none());
    assert_eq!(f.alpha_at(3, 1), 11);
    assert_eq!(f.alpha_at(0, 100), 0);
    // Past the right edge of a row, even where the next row has data.
    assert_eq!(f.alpha_at(8, 0), 0);
    assert_eq!(f.alpha_at(7, 0), 7);
}

#[test]
fn sphere_size_switches_at_48() {
    assert!(!sphere_for(SphereClass::Service, 47).large);
    assert_eq!(sphere_for(SphereClass::Service, 30).size_px(), 32);
    assert_eq!(sphere_for(SphereClass::Service, 47).size_px(), 32);
    assert_eq!(sphere_for(SphereClass::Vector, 48).size_px(), 64);
    assert_eq!(sphere_for(SphereClass::Vector, 48).class, SphereClass::Vector);
}

#[test]
fn heap_sweep_values_and_checks() {
    assert_eq!(pick_u32_sweep(), vec![0, 1, 2, 100, 0xFFFF_FFFE, 0xFFFF_FFFF, 0x7FFF_FFFF, 0xFFFF_FF9B]);
    assert_eq!(invariant_charge_heap_monotonic_under_sweep(), 64);
    assert_eq!(invariant_credit_heap_no_underflow(), 64);
}

#[test]
fn dir_entry_empty_and_name() {
    let mut e = DirEntry::empty();
    assert_eq!(e.name_len, 0);
    assert_eq!(e.name(), b"");
    assert_eq!(e.inode.kind, InodeKind::Other);
    e.name[..3].copy_from_slice(b"abc");
    e.name_len = 3;
    assert_eq!(e.name(), b"abc");
    assert_eq!(InodeKind::File.code(), 1);
    assert_eq!(InodeKind::Directory.code(), 2);
    assert_eq!(InodeKind::Other.code(), 0xFF);
}

fn boot_sector() -> Vec<u8> {
    let mut s = vec![0u8; 512];
    s[0x0B] = 0x00;
    s[0x0C] = 0x02; // 512 bytes per sector
    s[0x0D] = 8; // sectors per cluster
    s[0x0E] = 32; // reserved sectors
    s[0x10] = 2; // FATs
    s[0x20..0x24].copy_from_slice(&131072u32.to_le_bytes());
    s[0x24..0x28].copy_from_slice(&1009u32.to_le_bytes());
    s[0x2C..0x30].copy_from_slice(&2u32.to_le_bytes());
    s[0x1FE] = 0x55;
    s[0x1FF] = 0xAA;
    s
}

#[test]
fn bpb_parses_a_fat32_volume() {
    let s = boot_sector();
    let b = Bpb::parse(&s).unwrap();
    assert_eq!(b.bytes_per_sector, 512);
    assert_eq!(b.sectors_per_cluster, 8);
    assert_eq!(b.reserved_sectors, 32);
    assert_eq!(b.num_fats, 2);
    assert_eq!(b.sectors_per_fat, 1009);
    assert_eq!(b.root_cluster, 2);
    assert_eq!(b.total_sectors, 131072);
    assert_eq!(b.data_start_sector, 32 + 2 * 1009);
    assert_eq!(b.cluster_to_sector(2), 2050);
    assert_eq!(b.cluster_to_sector(5), 2050 + 24);
    assert_eq!(b.cluster_size_bytes(), 4096);
}

#[test]
fn bpb_rejections() {
    assert_eq!(Bpb::parse(&[0u8; 100]), Err(VfsError::Io(BlockIoStatus::BadBuffer)));
    let mut s = boot_sector();
    s[0x1FF] = 0;
    assert_eq!(Bpb::parse(&s), Err(VfsError::NotImplemented));
    let mut s = boot_sector();
    s[0x0D] = 3;
    assert_eq!(Bpb::parse(&s), Err(VfsError::NotImplemented));
    let mut s = boot_sector();
    s[0x16] = 1; // a FAT16 size field
    assert_eq!(Bpb::parse(&s), Err(VfsError::NotImplemented));
    let mut s = boot_sector();
    s[0x2C] = 1;
    assert_eq!(Bpb::parse(&s), Err(VfsError::NotImplemented));
}

#[test]
fn fat_entries_locate_and_decode() {
    assert_eq!(fat_entry_location(32, 0), (32, 0));
    assert_eq!(fat_entry_location(32, 130), (33, 8));
    assert_eq!(decode_fat_entry(0x0000_0003), Some(3));
    assert_eq!(decode_fat_entry(0xF000_0003), Some(3));
    assert_eq!(decode_fat_entry(0x0FFF_FFF8), None);
    assert_eq!(decode_fat_entry(0x0FFF_FFFF), None);
    assert_eq!(decode_fat_entry(0x0FFF_FFF7), None);
    assert_eq!(decode_fat_entry(1), None);
}

#[test]
fn short_names_and_slots() {
    let mut dst = [0xAAu8; 64];
    let n = copy_8_3_name(b"README  TXT", &mut dst);
    assert_eq!(&dst[..n as usize], b"README.TXT");
    assert_eq!(dst[n as usize], 0xAA);
    let n = copy_8_3_name(b"BOOT       ", &mut dst);
    assert_eq!(&dst[..n as usize], b"BOOT");
    let mut e = [0u8; 32];
    assert_eq!(classify_dir_slot(&e), DirSlot::End);
    e[0] = 0xE5;
    assert_eq!(classify_dir_slot(&e), DirSlot::Skip);
    e[0] = b'A';
    e[11] = 0x0F;
    assert_eq!(classify_dir_slot(&e), DirSlot::Skip);
    e[11] = 0x08;
    assert_eq!(classify_dir_slot(&e), DirSlot::Skip);
    e[11] = 0x10;
    assert_eq!(classify_dir_slot(&e), DirSlot::Entry);
    e[20] = 1;
    e[26] = 5;
    e[28..32].copy_from_slice(&4096u32.to_le_bytes());
    let ino = entry_to_inode(MountId(3), &e);
    assert_eq!(ino.mount, MountId(3));
    assert_eq!(ino.num, InodeNum(65536 + 5));
    assert_eq!(ino.kind, InodeKind::Directory);
    assert_eq!(ino.size_bytes, 4096);
}
