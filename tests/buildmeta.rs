use wtv_buildio::buildio::{BuildIO, BuildIODataCollation};
use wtv_buildio::buildmeta::{BuildHeader, BuildMeta, BuildMetaLayout, BuildStorageState, NO_ROMFS_FLAG};
use wtv_buildio::flashdiskio::FlashdiskIO;

fn put32(img: &mut [u8], off: usize, v: u32) {
    img[off..off + 4].copy_from_slice(&v.to_be_bytes());
}

fn get32(img: &[u8], off: usize) -> u32 {
    u32::from_be_bytes([img[off], img[off + 1], img[off + 2], img[off + 3]])
}

fn sum_dwords(img: &[u8], start: usize, count: usize, skip: Option<usize>) -> u32 {
    let mut sum: u32 = 0;
    for i in 0..count {
        if Some(i) != skip {
            sum = sum.wrapping_add(get32(img, start + 4 * i));
        }
    }
    sum
}

/// A legacy single-slot build of 32 code dwords with no filesystem.
fn legacy_build() -> Vec<u8> {
    let mut img = vec![0u8; 0x200];
    put32(&mut img, 0, 0x10000009);
    put32(&mut img, 4, 0);
    put32(&mut img, 16, 32);
    put32(&mut img, 20, 7);
    put32(&mut img, 36, NO_ROMFS_FLAG);
    for i in 16..32 {
        put32(&mut img, 4 * i, 0x01020304u32.wrapping_mul(i as u32));
    }
    let sum = sum_dwords(&img, 0, 32, Some(2));
    put32(&mut img, 8, sum);
    img
}

#[test]
fn legacy_build_looks_good() {
    let meta = BuildMeta::open_rom("bootrom.o".into(), None, legacy_build(), None).unwrap();
    assert_eq!(meta.layout, BuildMetaLayout::RawLayout);
    assert_eq!(meta.build_count, 1);
    assert_eq!(meta.selected_build_index, 0);
    let info = meta.build_info[0];
    assert!(info.available);
    assert_eq!(info.build_header.build_version, 7);
    assert_eq!(info.calculated_code_checksum, info.build_header.code_checksum);
    assert_eq!(info.build_header.build_base_address, 0x9f000000);
    assert_eq!(info.validation_state(&vec![(0x9f000000, 0x9f000000)]), BuildStorageState::BuildLooksGood);
    assert_eq!(info.validation_state(&vec![(0x9fc00000, 0x9fc00000)]), BuildStorageState::BadBaseAddress);
}

#[test]
fn flipping_a_code_byte_breaks_the_code_checksum() {
    for dword in [0usize, 1, 3, 9, 20, 31] {
        let mut img = legacy_build();
        img[4 * dword + 3] ^= 0x01;
        let meta = BuildMeta::open_rom("bootrom.o".into(), None, img, None).unwrap();
        let info = meta.build_info[0];
        assert_eq!(info.validation_state(&vec![(0x9f000000, 0x9f000000)]), BuildStorageState::CodeChecksumMismatch);
    }
}

#[test]
fn checksum_skips_only_the_checksum_dword() {
    let mut img = legacy_build();
    put32(&mut img, 8, 0xdeadbeef);
    let meta = BuildMeta::open_rom("bootrom.o".into(), None, img.clone(), None).unwrap();
    assert_eq!(meta.build_info[0].calculated_code_checksum, sum_dwords(&img, 0, 32, Some(2)));
    assert_eq!(meta.build_info[0].validation_state(&vec![(0, 0xffffffff)]), BuildStorageState::CodeChecksumMismatch);
}

#[test]
fn bootrom_instructions_imply_load_address() {
    let mut img = legacy_build();
    put32(&mut img, 0, 0x10000116);
    put32(&mut img, 4, 0);
    let h = BuildHeader::from_bytes(&img[0..64].to_vec());
    assert_eq!(h.inferred_base_address(), 0x9fc00000);
    put32(&mut img, 0, 0x1000000e);
    put32(&mut img, 36, 0x9fe00000);
    assert_eq!(BuildHeader::from_bytes(&img[0..64].to_vec()).inferred_base_address(), 0x9fc00000);
    put32(&mut img, 36, 0x9fe10000);
    assert_eq!(BuildHeader::from_bytes(&img[0..64].to_vec()).inferred_base_address(), 0x9fe00000);
    put32(&mut img, 0, 0x12345678);
    put32(&mut img, 48, 0x80400000);
    assert_eq!(BuildHeader::from_bytes(&img[0..64].to_vec()).inferred_base_address(), 0x80400000);
}

#[test]
fn romfs_checksum_is_computed() {
    let mut img = legacy_build();
    // base 0x9f000000, filesystem at offset 0x100, four dwords before its header
    put32(&mut img, 36, 0x9f000100);
    for i in 0..4 {
        put32(&mut img, 0xe8 + 4 * i, 0x11111111 * (i as u32 + 1));
    }
    put32(&mut img, 0xf8, 4);
    put32(&mut img, 0xfc, 0xaaaaaaaa);
    let sum = sum_dwords(&img, 0, 32, Some(2));
    put32(&mut img, 8, sum);
    let meta = BuildMeta::open_rom("bootrom.o".into(), None, img, None).unwrap();
    let info = meta.build_info[0];
    assert_eq!(info.romfs_offset, 0x100);
    assert_eq!(info.romfs_header.romfs_dword_length, 4);
    assert_eq!(info.romfs_header.romfs_checksum, 0xaaaaaaaa);
    assert_eq!(info.calculated_romfs_checksum, 0xaaaaaaaa);
    assert_eq!(info.validation_state(&vec![(0x9f000000, 0x9f000000)]), BuildStorageState::BuildLooksGood);
}

#[test]
fn filesystem_checksum_mismatch_is_reported() {
    let mut img = legacy_build();
    put32(&mut img, 36, 0x9f000100);
    put32(&mut img, 0xf4, 5);
    put32(&mut img, 0xf8, 1);
    put32(&mut img, 0xfc, 6);
    let sum = sum_dwords(&img, 0, 32, Some(2));
    put32(&mut img, 8, sum);
    let meta = BuildMeta::open_rom("bootrom.o".into(), None, img, None).unwrap();
    let info = meta.build_info[0];
    assert_eq!(info.calculated_romfs_checksum, 5);
    assert_eq!(info.validation_state(&vec![(0x9f000000, 0x9f000000)]), BuildStorageState::RomfsChecksumMismatch);
}

#[test]
fn unknown_layout_reads_slot_zero() {
    let meta = BuildMeta::open_rom("x".into(), None, vec![0u8; 0x100], None).unwrap();
    assert_eq!(meta.layout, BuildMetaLayout::UnknownLayout);
    assert_eq!(meta.build_count, 1);
    assert_eq!(meta.selected_build_index, 0);
}

const LC2_TABLE: usize = 0x014c1000;

fn disk_with_table(count: u32, part_type: u32) -> Vec<u8> {
    let mut img = vec![0u8; LC2_TABLE + 0x1000];
    img[LC2_TABLE + 8..LC2_TABLE + 12].copy_from_slice(b"timn");
    put32(&mut img, LC2_TABLE + 4, count);
    put32(&mut img, LC2_TABLE + 0x68, part_type);
    img
}

#[test]
fn partition_type_selects_webstar_layout() {
    let meta = BuildMeta::open_rom("hd".into(), None, disk_with_table(2, 4), None).unwrap();
    assert_eq!(meta.layout, BuildMetaLayout::WebstarDiskLayout);
    assert_eq!(meta.build_count, 1);
}

#[test]
fn magic_without_partition_type_is_lc2_layout() {
    let mut img = disk_with_table(2, 3);
    img[0x01080600] = 1;
    let meta = BuildMeta::open_rom("hd".into(), None, img, None).unwrap();
    assert_eq!(meta.layout, BuildMetaLayout::LC2DiskLayout);
    assert_eq!(meta.build_count, 2);
    assert_eq!(meta.selected_build_index, 1);
    assert_eq!(meta.build_info[0].build_offset, 0x00080600);
    assert_eq!(meta.build_info[1].build_offset, 0x00880600);
    let single = BuildMeta::open_rom("hd".into(), None, disk_with_table(1, 4), None).unwrap();
    assert_eq!(single.layout, BuildMetaLayout::LC2DiskLayout);
}

#[test]
fn selecting_a_slot_rewrites_the_selector() {
    let mut meta = BuildMeta::open_rom("hd".into(), None, disk_with_table(2, 0), None).unwrap();
    assert_eq!(meta.selected_build_index, 0);
    meta.set_selected_build_index(1).unwrap();
    assert_eq!(meta.selected_build_index, 1);
    let (image, _) = meta.io.file_images();
    assert_eq!(image[0x01080600], 1);
    let again = BuildMeta::open_rom("hd".into(), None, image, None).unwrap();
    assert_eq!(again.selected_build_index, 1);
    let mut single = BuildMeta::open_rom("rom".into(), None, legacy_build(), None).unwrap();
    assert!(single.set_selected_build_index(1).is_err());
}

#[test]
fn byte_swapped_disk_reads_its_layout() {
    let mut img = disk_with_table(2, 0);
    for pair in img.chunks_exact_mut(2) {
        pair.swap(0, 1);
    }
    let meta = BuildMeta::open_rom("hd".into(), Some(BuildIODataCollation::ByteSwapped16), img, None).unwrap();
    assert_eq!(meta.layout, BuildMetaLayout::LC2DiskLayout);
}

#[test]
fn writing_a_build_to_a_flashdisk() {
    let io = FlashdiskIO::create("mdoc".into(), None, 0x40000).unwrap();
    let mut meta = BuildMeta::new(io).unwrap();
    assert_eq!(meta.layout, BuildMetaLayout::UnknownLayout);
    let build = legacy_build();
    assert_eq!(meta.write_build(0, &build), Ok(build.len()));
    assert_eq!(meta.layout, BuildMetaLayout::RawLayout);
    let info = meta.build_info[0];
    assert_eq!(info.calculated_code_checksum, info.build_header.code_checksum);
    let image = meta.io.file_image();
    let reopened = BuildMeta::open_flashdisk("mdoc".into(), None, image).unwrap();
    assert_eq!(reopened.layout, BuildMetaLayout::RawLayout);
    assert_eq!(reopened.build_info[0].validation_state(&vec![(0x9f000000, 0x9f000000)]), BuildStorageState::BuildLooksGood);
    let mut io = reopened.io;
    io.seek(0).unwrap();
    let mut back = vec![0u8; build.len()];
    io.read(&mut back).unwrap();
    assert_eq!(back, build);
}

#[test]
fn checksum_beyond_the_ceiling_is_zero() {
    let mut img = legacy_build();
    put32(&mut img, 16, 0x4000001);
    let meta = BuildMeta::open_rom("bootrom.o".into(), None, img, None).unwrap();
    assert_eq!(meta.build_info[0].calculated_code_checksum, 0);
}
