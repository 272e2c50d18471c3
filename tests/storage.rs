use wtv_buildio::buildio::{BuildIO, BuildIODataCollation, BuildIOError};
use wtv_buildio::diskio::{CHDChunkMetadata, CHDHeaderV5, DataU24, DiskIO, Sha1Hash};
use wtv_buildio::flashdiskio::{
    get_flashdisk_size, DiskInformation, FlashdiskIO, PageInformation, UnitEraseInformation, UnitOrderInformation,
    UserControlInformation,
};
use wtv_buildio::romio::{interleave_chips, split_chip, ROMIO};

#[test]
fn byte_swap_16_swaps_each_word() {
    let mut buf = vec![1u8, 2, 3, 4, 5, 6];
    BuildIODataCollation::convert_raw_data(&mut buf, BuildIODataCollation::ByteSwapped16).unwrap();
    assert_eq!(buf, vec![2, 1, 4, 3, 6, 5]);
}

#[test]
fn byte_swap_1632_swaps_half_words() {
    let mut buf = vec![1u8, 2, 3, 4, 5, 6, 7, 8];
    BuildIODataCollation::convert_raw_data(&mut buf, BuildIODataCollation::ByteSwapped1632).unwrap();
    assert_eq!(buf, vec![3, 4, 1, 2, 7, 8, 5, 6]);
}

#[test]
fn collations_round_trip() {
    let plain: Vec<u8> = (0..64u8).collect();
    for c in [
        BuildIODataCollation::Raw,
        BuildIODataCollation::StrippedROMs,
        BuildIODataCollation::ByteSwapped16,
        BuildIODataCollation::ByteSwapped1632,
    ] {
        let mut buf = plain.clone();
        BuildIODataCollation::convert_raw_data(&mut buf, c).unwrap();
        BuildIODataCollation::convert_raw_data(&mut buf, c).unwrap();
        assert_eq!(buf, plain);
    }
}

#[test]
fn collation_length_mismatch_is_refused() {
    let mut odd = vec![1u8, 2, 3];
    assert_eq!(
        BuildIODataCollation::convert_raw_data(&mut odd, BuildIODataCollation::ByteSwapped16),
        Err(BuildIOError::LengthMismatch)
    );
    assert_eq!(odd, vec![1, 2, 3]);
    let mut six = vec![1u8, 2, 3, 4, 5, 6];
    assert_eq!(
        BuildIODataCollation::convert_raw_data(&mut six, BuildIODataCollation::ByteSwapped1632),
        Err(BuildIOError::LengthMismatch)
    );
    assert_eq!(six, vec![1, 2, 3, 4, 5, 6]);
}

#[test]
fn chips_interleave_two_bytes_at_a_time() {
    let c0 = vec![0xa0u8, 0xa1, 0xa2, 0xa3];
    let c1 = vec![0xb0u8, 0xb1, 0xb2, 0xb3];
    let image = interleave_chips(&c0, &c1).unwrap();
    assert_eq!(image, vec![0xa0, 0xa1, 0xb0, 0xb1, 0xa2, 0xa3, 0xb2, 0xb3]);
    assert_eq!(split_chip(&image, 0), c0);
    assert_eq!(split_chip(&image, 1), c1);
}

#[test]
fn stripped_pair_write_then_read_back() {
    let mut io = ROMIO::open("flash".into(), Some(BuildIODataCollation::StrippedROMs), vec![0u8; 16], Some(vec![0u8; 16])).unwrap();
    assert_eq!(io.len(), 32);
    let data: Vec<u8> = (1..=24u8).collect();
    assert_eq!(io.write(&data), Ok(24));
    io.seek(0).unwrap();
    let mut back = vec![0u8; 24];
    assert_eq!(io.read(&mut back), Ok(24));
    assert_eq!(back, data);
    let (c0, c1) = io.file_images();
    let c1 = c1.unwrap();
    assert_eq!(&c0[0..4], &[1, 2, 5, 6]);
    assert_eq!(&c1[0..4], &[3, 4, 7, 8]);
}

#[test]
fn stripped_pair_partial_group_pads_second_chip() {
    let mut io = ROMIO::open("flash".into(), Some(BuildIODataCollation::StrippedROMs), vec![0xeeu8; 8], Some(vec![0xeeu8; 8])).unwrap();
    let data = vec![1u8, 2, 3, 4, 5, 6];
    assert_eq!(io.write(&data), Ok(6));
    io.seek(0).unwrap();
    let mut back = vec![0u8; 6];
    assert_eq!(io.read(&mut back), Ok(6));
    assert_eq!(back, data);
    let (c0, c1) = io.file_images();
    let c1 = c1.unwrap();
    assert_eq!(&c0[0..4], &[1, 2, 5, 6]);
    assert_eq!(&c1[0..4], &[3, 4, 0, 0]);
}

#[test]
fn stripped_pair_refuses_short_or_odd_buffers() {
    let mut io = ROMIO::open("flash".into(), Some(BuildIODataCollation::StrippedROMs), vec![0u8; 8], Some(vec![0u8; 8])).unwrap();
    let mut short = vec![0u8; 2];
    assert_eq!(io.read(&mut short), Err(BuildIOError::BufferLength));
    let mut odd = vec![0u8; 5];
    assert_eq!(io.read(&mut odd), Err(BuildIOError::BufferLength));
    assert_eq!(io.write(&vec![0u8; 7]), Err(BuildIOError::BufferLength));
}

#[test]
fn stripped_pair_needs_both_chips() {
    let r = ROMIO::open("flash".into(), Some(BuildIODataCollation::StrippedROMs), vec![0u8; 8], None);
    assert!(matches!(r, Err(BuildIOError::NotFound)));
}

#[test]
fn rom_read_stops_at_end_and_seek_checks_range() {
    let mut io = ROMIO::open("rom".into(), None, vec![9u8, 8, 7, 6, 5, 4], None).unwrap();
    assert_eq!(io.seek(4), Ok(4));
    let mut buf = vec![0u8; 4];
    assert_eq!(io.read(&mut buf), Ok(2));
    assert_eq!(buf, vec![5, 4, 0, 0]);
    assert_eq!(io.seek(7), Err(BuildIOError::OutOfRange));
    let created = ROMIO::create("new".into(), None, 12).unwrap();
    assert_eq!(created.len(), 12);
}

#[test]
fn raw_disk_reads_byte_swapped() {
    let mut io = DiskIO::open("disk.img".into(), Some(BuildIODataCollation::ByteSwapped16), vec![1u8, 2, 3, 4, 5, 6, 7, 8], None).unwrap();
    assert!(matches!(io, DiskIO::Raw(_)));
    let mut buf = vec![0u8; 4];
    assert_eq!(io.read(&mut buf), Ok(4));
    assert_eq!(buf, vec![2, 1, 4, 3]);
    io.seek(4).unwrap();
    assert_eq!(io.write(&vec![0xa, 0xb, 0xc, 0xd]), Ok(4));
    io.seek(4).unwrap();
    assert_eq!(io.read(&mut buf), Ok(4));
    assert_eq!(buf, vec![0xa, 0xb, 0xc, 0xd]);
}

#[test]
fn container_names_pick_the_hunk_backend() {
    let r = DiskIO::open("/roms/box/disk.chd".into(), None, vec![0u8; 64], None);
    // not a container: the hunk backend refuses the bytes
    assert!(matches!(r, Err(BuildIOError::Format)));
    let d = DiskIO::open("/roms/box/disk.chd.img".into(), None, vec![0u8; 64], None).unwrap();
    assert!(matches!(d, DiskIO::Raw(_)));
}

const HS: usize = 512;
const K: usize = 8;

fn be32(v: u32) -> [u8; 4] {
    v.to_be_bytes()
}

/// An uncompressed container of K hunks, hunk i filled with i + 1.
fn base_container() -> Vec<u8> {
    let mut out = Vec::new();
    out.extend_from_slice(b"MComprHD");
    out.extend_from_slice(&be32(124));
    out.extend_from_slice(&be32(5));
    out.extend_from_slice(&[0u8; 16]);
    out.extend_from_slice(&((K * HS) as u64).to_be_bytes());
    out.extend_from_slice(&124u64.to_be_bytes());
    out.extend_from_slice(&0u64.to_be_bytes());
    out.extend_from_slice(&be32(HS as u32));
    out.extend_from_slice(&be32(512));
    out.extend_from_slice(&[0u8; 20]);
    out.extend_from_slice(&[0x11u8; 20]);
    out.extend_from_slice(&[0u8; 20]);
    assert_eq!(out.len(), 124);
    for i in 0..K {
        out.extend_from_slice(&be32((i + 1) as u32));
    }
    out.resize(HS, 0);
    for i in 0..K {
        out.extend_from_slice(&vec![(i + 1) as u8; HS]);
    }
    out
}

fn read_all(io: &mut DiskIO) -> Vec<u8> {
    io.seek(0).unwrap();
    let mut buf = vec![0u8; K * HS];
    assert_eq!(io.read(&mut buf), Ok(K * HS));
    buf
}

#[test]
fn hunk_container_round_trip_through_diff() {
    let base = base_container();
    let mut io = DiskIO::open("/roms/box/disk.chd".into(), None, base.clone(), None).unwrap();
    assert_eq!(io.len(), (K * HS) as u64);
    let before = read_all(&mut io);
    for i in 0..K {
        assert!(before[i * HS..(i + 1) * HS].iter().all(|&b| b == (i + 1) as u8));
    }
    io.seek((2 * HS) as u64).unwrap();
    assert_eq!(io.write(&vec![0xa2u8; HS]), Ok(HS));
    io.seek((5 * HS + 100) as u64).unwrap();
    assert_eq!(io.write(&vec![0xa5u8; 64]), Ok(64));
    io.commit().unwrap();
    let diff = match &io {
        DiskIO::CompressedHunk(d) => d.diff_bytes().unwrap(),
        _ => panic!("expected the hunk backend"),
    };
    let mut reopened = DiskIO::open("/roms/box/disk.chd".into(), None, base, Some(diff)).unwrap();
    let after = read_all(&mut reopened);
    for i in 0..K {
        let hunk = &after[i * HS..(i + 1) * HS];
        if i == 2 {
            assert!(hunk.iter().all(|&b| b == 0xa2));
        } else if i == 5 {
            assert!(hunk[..100].iter().all(|&b| b == 6));
            assert!(hunk[100..164].iter().all(|&b| b == 0xa5));
            assert!(hunk[164..].iter().all(|&b| b == 6));
        } else {
            assert_eq!(hunk, &before[i * HS..(i + 1) * HS]);
        }
    }
}

#[test]
fn hunk_container_writes_are_buffered_until_commit() {
    let mut io = DiskIO::open("disk.chd".into(), None, base_container(), None).unwrap();
    io.seek(0).unwrap();
    io.write(&vec![0xffu8; 8]).unwrap();
    io.seek(0).unwrap();
    let mut buf = vec![0u8; 8];
    io.read(&mut buf).unwrap();
    assert_eq!(buf, vec![1u8; 8]);
    io.commit().unwrap();
    io.seek(0).unwrap();
    io.read(&mut buf).unwrap();
    assert_eq!(buf, vec![0xffu8; 8]);
}

#[test]
fn flashdisk_round_trip_across_a_unit_boundary() {
    let mut io = FlashdiskIO::create("mdoc".into(), None, 0x40000).unwrap();
    // virtual pages 15, 16 and 17: the last page of a unit and the first two of the next
    let data: Vec<u8> = (0..3 * 512).map(|i| (i % 251) as u8).collect();
    io.seek(15 * 512).unwrap();
    assert_eq!(io.write(&data), Ok(3 * 512));
    io.commit().unwrap();
    let image = io.file_image();
    assert_eq!(image.len(), 0x40000 + 0x40000 / 512 * 16);
    let mut reopened = FlashdiskIO::open("mdoc".into(), None, image).unwrap();
    reopened.seek(15 * 512).unwrap();
    let mut back = vec![0u8; 3 * 512];
    assert_eq!(reopened.read(&mut back), Ok(3 * 512));
    assert_eq!(back, data);
    reopened.seek(0).unwrap();
    let mut page = vec![0u8; 512];
    reopened.read(&mut page).unwrap();
    assert!(page.iter().all(|&b| b == 0xff));
    reopened.seek(100 * 512).unwrap();
    reopened.read(&mut page).unwrap();
    assert!(page.iter().all(|&b| b == 0xff));
}

#[test]
fn flashdisk_rebuilt_image_has_disk_information_and_linear_table() {
    let mut io = FlashdiskIO::create("mdoc".into(), None, 0x40000).unwrap();
    io.seek(0).unwrap();
    io.write(&vec![0x42u8; 4]).unwrap();
    io.commit().unwrap();
    let image = io.file_image();
    assert_eq!(&image[0..6], b"ANAND\0");
    assert_eq!(&image[0x2000..0x2006], b"ANAND\0");
    // 32 units of 8 KiB; usable size = user size - two header units
    assert_eq!(&image[6..8], &[32, 0]);
    assert_eq!(&image[10..14], &(0x40000u32 - 0x4000).to_le_bytes());
    // virtual page 0 is physical page 32, the first page of unit 2
    assert_eq!(&image[0x4000..0x4004], &[0x42; 4]);
    let spare = 0x40000;
    let page32 = spare + 32 * 16;
    assert_eq!(&image[page32 + 6..page32 + 8], &[0x55, 0x55]);
    assert_eq!(&image[page32 + 8..page32 + 16], &[0, 0, 0xff, 0xff, 0, 0, 0xff, 0xff]);
    let page33 = page32 + 16;
    assert_eq!(&image[page33 + 8..page33 + 16], &[1, 0, 0, 0, 0x69, 0x3c, 0x69, 0x3c]);
}

#[test]
fn flashdisk_chain_later_unit_wins() {
    // 64 KiB of user area: 128 pages, 8 units, 6 usable
    let usr = 0x10000usize;
    let spr = usr / 512 * 16;
    let mut image = vec![0xffu8; usr + spr];
    let unit_spare = |u: usize| usr + u * 256;
    // physical unit 3 holds virtual unit 0, replaced by physical unit 5
    for (u, replace) in [(3usize, 5i16), (5usize, -1i16)] {
        let b = unit_spare(u);
        image[b + 8..b + 10].copy_from_slice(&0i16.to_le_bytes());
        image[b + 10..b + 12].copy_from_slice(&replace.to_le_bytes());
        image[b + 28..b + 30].copy_from_slice(&0x3c69u16.to_le_bytes());
    }
    // page 0 written in unit 3 and in unit 5; page 1 only in unit 3
    for (u, p, fill) in [(3usize, 0usize, 0x33u8), (3, 1, 0x31), (5, 0, 0x55)] {
        let s = unit_spare(u) + p * 16;
        image[s + 6..s + 8].copy_from_slice(&0x5555u16.to_le_bytes());
        let off = (u * 16 + p) * 512;
        image[off..off + 512].fill(fill);
    }
    let mut io = FlashdiskIO::open("mdoc".into(), None, image).unwrap();
    let mut page = vec![0u8; 512];
    io.seek(0).unwrap();
    io.read(&mut page).unwrap();
    assert!(page.iter().all(|&b| b == 0x55));
    io.read(&mut page).unwrap();
    assert!(page.iter().all(|&b| b == 0x31));
    io.read(&mut page).unwrap();
    assert!(page.iter().all(|&b| b == 0xff));
}

#[test]
fn flashdisk_too_small_is_refused() {
    assert!(matches!(FlashdiskIO::open("mdoc".into(), None, vec![0xffu8; 1000]), Err(BuildIOError::Format)));
}

#[test]
fn flashdisk_size_follows_the_first_known_chip() {
    assert_eq!(get_flashdisk_size(&vec![]), 8 * 1024 * 1024);
    assert_eq!(get_flashdisk_size(&vec!["ds2401".to_string(), "mdoc_2810_0016".to_string()]), 16 * 1024 * 1024);
    assert_eq!(get_flashdisk_size(&vec!["mdoc_2810_0002".to_string(), "mdoc_2810_0016".to_string()]), 2 * 1024 * 1024);
    assert_eq!(get_flashdisk_size(&vec!["mdoc_2810_0004".to_string()]), 4 * 1024 * 1024);
    assert_eq!(get_flashdisk_size(&vec!["other".to_string()]), 8 * 1024 * 1024);
}

#[test]
fn flash_records_round_trip() {
    let order = UnitOrderInformation {
        usr_virtual_unit_number: 7,
        usr_replace_unit_number: -1,
        spr_virtual_unit_number: 7,
        spr_replace_unit_number: -1,
    };
    let bytes = order.to_le_bytes();
    assert_eq!(bytes, vec![7, 0, 0xff, 0xff, 7, 0, 0xff, 0xff]);
    let back = UnitOrderInformation::from_le_bytes(&bytes, 0);
    assert_eq!(back.usr_virtual_unit_number, 7);
    assert_eq!(back.usr_replace_unit_number, -1);
    let erase = UnitEraseInformation { wear_info: 1, usr_erase_status: 0x3c69, spr_erase_status: 0x3c69 };
    assert_eq!(erase.to_le_bytes(), vec![1, 0, 0, 0, 0x69, 0x3c, 0x69, 0x3c]);
    let page = PageInformation { usr_ecc_data: [0; 6], usr_data_status: 0x5555 };
    assert_eq!(page.to_le_bytes(), vec![0, 0, 0, 0, 0, 0, 0x55, 0x55]);
    let mut spare = vec![0xffu8; 48];
    spare[28] = 0x69;
    spare[29] = 0x3c;
    spare[8] = 3;
    spare[9] = 0;
    let uci = UserControlInformation::from_le_bytes(&spare, 0);
    assert_eq!(uci.erase.usr_erase_status, 0x3c69);
    assert_eq!(uci.order.usr_virtual_unit_number, 3);
    assert_eq!(uci.order.usr_replace_unit_number, -1);
    assert_eq!(uci.page0_info.usr_data_status, -1);
    let info = DiskInformation { magic: *b"ANAND\0", total_usable_units: 32, frist_usable_unit: 0, usable_size: 0x3c000 };
    assert_eq!(info.to_le_bytes(), vec![0x41, 0x4e, 0x41, 0x4e, 0x44, 0, 32, 0, 0, 0, 0, 0xc0, 0x03, 0]);
}

#[test]
fn container_header_bytes() {
    let header = CHDHeaderV5 {
        magic: *b"MComprHD",
        header_size: 124,
        header_version: 5,
        compressor: [0; 4],
        uncompressed_size: 0x1000,
        hunk_map_offset: 124,
        disk_metadata_offset: 156,
        hunk_size_bytes: 512,
        sector_size_bytes: 512,
        sha1: [Sha1Hash { hash: [0; 20] }, Sha1Hash { hash: [0; 20] }, Sha1Hash { hash: [0x11; 20] }],
    };
    let bytes = header.to_be_bytes();
    assert_eq!(bytes.len(), 124);
    assert_eq!(&bytes[0..8], b"MComprHD");
    assert_eq!(&bytes[8..16], &[0, 0, 0, 124, 0, 0, 0, 5]);
    assert_eq!(&bytes[32..40], &0x1000u64.to_be_bytes());
    assert_eq!(&bytes[56..64], &[0, 0, 2, 0, 0, 0, 2, 0]);
    assert_eq!(&bytes[104..124], &[0x11; 20]);
    let chunk = CHDChunkMetadata { chunk_id: 0x47444444, flags: 1, size: DataU24 { ms: 0, ls: 42 }, next_offset: 0 };
    assert_eq!(chunk.to_be_bytes(), vec![0x47, 0x44, 0x44, 0x44, 1, 0, 0, 42, 0, 0, 0, 0, 0, 0, 0, 0]);
}

#[test]
fn diff_holds_geometry_metadata() {
    let mut io = DiskIO::open("/roms/box/disk.chd".into(), None, base_container(), None).unwrap();
    io.seek(0).unwrap();
    io.write(&vec![0x5au8; 4]).unwrap();
    io.commit().unwrap();
    let diff = match &io {
        DiskIO::CompressedHunk(d) => d.diff_bytes().unwrap(),
        _ => panic!("expected the hunk backend"),
    };
    // header, map of K entries, chunk header, then the geometry text
    let text_start = 124 + 4 * K + 16;
    let text = b"CYLS:0,HEADS:16,SECS:63,BPS:512";
    assert_eq!(&diff[text_start..text_start + text.len()], text);
    assert_eq!(diff[text_start + text.len()], 0);
    assert_eq!(&diff[104..124], &[0x11; 20]);
    // hunk 0 gets the first slot after the aligned metadata
    assert_eq!(&diff[124..128], &1u32.to_be_bytes());
    assert_eq!(&diff[128..132], &0u32.to_be_bytes());
    assert_eq!(diff.len(), 2 * HS);
    assert_eq!(&diff[HS..HS + 4], &[0x5a; 4]);
    assert!(diff[HS + 4..2 * HS].iter().all(|&b| b == 1));
}

#[test]
fn malformed_container_headers_are_refused() {
    // a sector larger than the hunk
    let mut bad_units = base_container();
    bad_units[60..64].copy_from_slice(&be32(1024));
    assert!(matches!(DiskIO::open("disk.chd".into(), None, bad_units, None), Err(BuildIOError::Format)));
    // a size that overflows when rounded up to whole hunks
    let mut huge = base_container();
    huge[32..40].copy_from_slice(&u64::MAX.to_be_bytes());
    assert!(matches!(DiskIO::open("disk.chd".into(), None, huge, None), Err(BuildIOError::Format)));
    // a diff whose hunks differ in size from the container's
    let mut other = base_container();
    other[56..60].copy_from_slice(&be32(1024));
    assert!(matches!(DiskIO::open("disk.chd".into(), None, base_container(), Some(other)), Err(BuildIOError::Format)));
}

#[test]
fn hunk_commit_without_writes_lays_out_nothing() {
    let mut io = DiskIO::open("disk.chd".into(), None, base_container(), None).unwrap();
    assert_eq!(io.commit(), Ok(()));
    match &io {
        DiskIO::CompressedHunk(d) => assert!(d.diff_bytes().is_none()),
        _ => panic!("expected the hunk backend"),
    }
}

#[test]
fn flashdisk_create_checks_its_size() {
    assert!(matches!(FlashdiskIO::create("mdoc".into(), None, 0x1000), Err(BuildIOError::OutOfRange)));
    assert!(matches!(FlashdiskIO::create("mdoc".into(), None, 0x8000000), Err(BuildIOError::OutOfRange)));
    let io = FlashdiskIO::create("mdoc".into(), None, 0x10000).unwrap();
    assert_eq!(io.len(), 0x10000 - 0x4000);
    assert_eq!(io.file_image().len(), 0x10000 + 0x10000 / 512 * 16);
}

#[test]
fn diff_paths_follow_the_rom_tree() {
    assert_eq!(
        wtv_buildio::diskio::find_diff_file("/mame/roms/wtv1sony/hd.chd"),
        Some("/mame/roms/wtv1sony/../../diff/hd.dif".to_string())
    );
    assert_eq!(
        wtv_buildio::diskio::rom_tree_dir("/mame/roms/wtv1sony/hd.chd"),
        Some("/mame/roms/wtv1sony/../../roms".to_string())
    );
    assert_eq!(wtv_buildio::diskio::find_diff_file("rel/disk.v2.chd"), Some("rel/../../diff/disk.v2.dif".to_string()));
    assert_eq!(wtv_buildio::diskio::find_diff_file("disk.chd"), None);
    assert_eq!(wtv_buildio::diskio::find_diff_file("a/.hidden"), Some("a/../../diff/.hidden.dif".to_string()));
}

#[test]
fn disk_ending_inside_a_hunk_is_refused() {
    let mut partial = base_container();
    partial[32..40].copy_from_slice(&((K * HS - 100) as u64).to_be_bytes());
    assert!(matches!(DiskIO::open("disk.chd".into(), None, partial, None), Err(BuildIOError::Format)));
}

#[test]
fn compressed_maps_are_refused() {
    let mut compressed = base_container();
    compressed[16..20].copy_from_slice(b"zlib");
    assert!(matches!(DiskIO::open("disk.chd".into(), None, compressed, None), Err(BuildIOError::Format)));
}
