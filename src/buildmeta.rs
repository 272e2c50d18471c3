//! Build metadata: where the builds of an image lie, their headers, and the
//! checksums that validate them.

use vstd::prelude::*;
use crate::buildio::{read_result, splice, BuildIO, BuildIODataCollation, BuildIOError};
use crate::bytes::{be_u32_at, be_u64_at, filled, read_be_u32, read_be_u64};
use crate::romio::{interleave, ROMIO};
use crate::diskio::{hunk_open_ok, image_view, is_container_name, DiskIO};
use crate::flashdiskio::{dump_fits, FlashdiskIO};

verus! {

pub const RAW_LAYOUT_CHECK_OFFSET: u64 = 0x00000000;
pub const RAW_LAYOUT_CHECK_MASK: u32 = 0xffffff00;
pub const RAW_LAYOUT_CHECK_VALUE: u32 = 0x10000000;
pub const RAW_BUILD_OFFSET0: u64 = 0x00000000;

/// `timn`
pub const PARTITION_TABLE_MAGIC: u32 = 0x74696d6e;
pub const PARTITION_TABLE_MAGIC_OFFSET: u64 = 0x00000008;

pub const LC2_PARTITION_TABLE_OFFSET: u64 = 0x014c1000;
pub const LC2_BUILD_SELECT_OFFSET: u64 = 0x01080600;
pub const LC2_BUILD_OFFSET0: u64 = 0x00080600;
pub const LC2_BUILD_OFFSET1: u64 = 0x00880600;

pub const WEBSTAR_PART_COUNT_CHECK_OFFSET: u64 = 0x00000004;
pub const WEBSTAR_PART_TYPE_CHECK_OFFSET: u64 = 0x00000068;
pub const WEBSTAR_PART_TYPE_CHECK_VALUE: u32 = 0x00000004;
pub const WEBSTAR_BUILD_OFFSET0: u64 = 0x00080600;

pub const UTV_PARTITION_TABLE_OFFSET: u64 = 0x178c1000;
pub const UTV_BUILD_SELECT_OFFSET: u64 = 0x17480600;
pub const UTV_BUILD_OFFSET0: u64 = 0x13480600;
pub const UTV_BUILD_OFFSET1: u64 = 0x15480600;

/// `NoFS`: the build carries no embedded filesystem.
pub const NO_ROMFS_FLAG: u32 = 0x4e6f4653;

/// Checksums over more dwords than this are not attempted (64 MiB).
pub const MAX_CHECKSUM_DWORDS: u32 = 0x4000000;

pub const BUILD_HEADER_SIZE: usize = 0x40;
pub const ROMFS_HEADER_SIZE: usize = 0x08;

/// The dword of the header that holds the code checksum itself.
pub const CODE_CHECKSUM_SKIP_INDEX: u32 = 2;

#[derive(Debug, Clone, Copy, PartialEq, Eq, Structural)]
pub enum BuildMetaLayout {
    UnknownLayout,
    RawLayout,
    FlashdiskLayout,
    LC2DiskLayout,
    WebstarDiskLayout,
    UTVDiskLayout,
}

/// The 64-byte header at the start of a build, big-endian.
#[derive(Debug, Clone, Copy)]
pub struct BuildHeader {
    pub branch_and_delay_instructions: u64,
    pub code_checksum: u32,
    pub build_dword_length: u32,
    pub code_dword_length: u32,
    pub build_version: u32,
    pub data_section_address: u32,
    pub data_section_length: u32,
    pub bss_section_length: u32,
    pub romfs_address: u32,
    pub lzj_data_version: u32,
    pub lzj_data_length: u32,
    // Builds of older revisions have code or blank space where these are.
    pub build_base_address: u32,
    pub build_flags: u32,
    pub data_section_compressed_length: u32,
    pub compressed_bootrom_address: u32,
}

/// The 8 bytes just before the embedded filesystem, big-endian.
#[derive(Debug, Clone, Copy)]
pub struct ROMFSHeader {
    pub romfs_dword_length: u32,
    pub romfs_checksum: u32,
}

#[derive(Debug, Clone, Copy)]
pub struct BuildInfo {
    pub available: bool,
    pub build_header: BuildHeader,
    pub romfs_header: ROMFSHeader,
    pub build_offset: u64,
    pub romfs_offset: u64,
    pub calculated_code_checksum: u32,
    pub calculated_romfs_checksum: u32,
}

/// The outcome of validating a build, by precedence.
#[derive(Debug, Clone, Copy, PartialEq, Eq, Structural)]
pub enum BuildStorageState {
    UnknownBuildState,
    BuildLooksGood,
    FileNotFound,
    CantReadBuild,
    CodeChecksumMismatch,
    RomfsChecksumMismatch,
    BadBaseAddress,
}

/// The header held by the 64 bytes `b`.
pub open spec fn parse_build_header(b: Seq<u8>) -> BuildHeader {
    BuildHeader {
        branch_and_delay_instructions: be_u64_at(b, 0),
        code_checksum: be_u32_at(b, 8),
        build_dword_length: be_u32_at(b, 12),
        code_dword_length: be_u32_at(b, 16),
        build_version: be_u32_at(b, 20),
        data_section_address: be_u32_at(b, 24),
        data_section_length: be_u32_at(b, 28),
        bss_section_length: be_u32_at(b, 32),
        romfs_address: be_u32_at(b, 36),
        lzj_data_version: be_u32_at(b, 40),
        lzj_data_length: be_u32_at(b, 44),
        build_base_address: be_u32_at(b, 48),
        build_flags: be_u32_at(b, 52),
        data_section_compressed_length: be_u32_at(b, 56),
        compressed_bootrom_address: be_u32_at(b, 60),
    }
}

/// The filesystem header held by the 8 bytes `b`.
pub open spec fn parse_romfs_header(b: Seq<u8>) -> ROMFSHeader {
    ROMFSHeader { romfs_dword_length: be_u32_at(b, 0), romfs_checksum: be_u32_at(b, 4) }
}

pub open spec fn zeros(n: nat) -> Seq<u8> {
    Seq::new(n, |i: int| 0u8)
}

/// The `n` bytes that a read at `pos` of stream `s` under collation `c` hands
/// back into a zeroed buffer; a position past the end reads nothing.
pub open spec fn bytes_at(s: Seq<u8>, c: BuildIODataCollation, pos: int, n: nat) -> Seq<u8> {
    let p = if pos <= s.len() { pos } else { s.len() as int };
    read_result(s, p, zeros(n), c)
}

/// The big-endian dword that a 4-byte read at `pos` hands back.
pub open spec fn dword_at(s: Seq<u8>, c: BuildIODataCollation, pos: int) -> u32 {
    be_u32_at(bytes_at(s, c, pos, 4), 0)
}

/// The wrapping sum of the first `count` dwords from `start`, leaving out
/// dword number `skip`.
pub open spec fn dword_sum(s: Seq<u8>, c: BuildIODataCollation, start: int, count: nat, skip: Option<u32>) -> u32
    decreases count,
{
    if count == 0 {
        0
    } else {
        let i = (count - 1) as nat;
        let prev = dword_sum(s, c, start, i, skip);
        if skip == Some(i as u32) {
            prev
        } else {
            prev.wrapping_add(dword_at(s, c, start + 4 * i))
        }
    }
}

/// The checksum of `length` dwords from `start`: zero where `start` lies past
/// the end of the stream or `length` is beyond the sanity ceiling.
pub open spec fn checksum_of(s: Seq<u8>, c: BuildIODataCollation, start: int, length: u32, skip: Option<u32>) -> u32 {
    if start > s.len() || length > MAX_CHECKSUM_DWORDS {
        0
    } else {
        dword_sum(s, c, start, length as nat, skip)
    }
}

/// The layout of stream `s`, probed from the largest offset down.
pub open spec fn detect_layout(s: Seq<u8>, c: BuildIODataCollation) -> BuildMetaLayout {
    if s.len() > UTV_PARTITION_TABLE_OFFSET && dword_at(s, c, (UTV_PARTITION_TABLE_OFFSET + PARTITION_TABLE_MAGIC_OFFSET) as int) == PARTITION_TABLE_MAGIC {
        BuildMetaLayout::UTVDiskLayout
    } else if s.len() > LC2_PARTITION_TABLE_OFFSET && dword_at(s, c, (LC2_PARTITION_TABLE_OFFSET + PARTITION_TABLE_MAGIC_OFFSET) as int) == PARTITION_TABLE_MAGIC {
        if dword_at(s, c, (LC2_PARTITION_TABLE_OFFSET + WEBSTAR_PART_COUNT_CHECK_OFFSET) as int) >= 2
            && dword_at(s, c, (LC2_PARTITION_TABLE_OFFSET + WEBSTAR_PART_TYPE_CHECK_OFFSET) as int) == WEBSTAR_PART_TYPE_CHECK_VALUE {
            BuildMetaLayout::WebstarDiskLayout
        } else {
            BuildMetaLayout::LC2DiskLayout
        }
    } else if dword_at(s, c, RAW_LAYOUT_CHECK_OFFSET as int) & RAW_LAYOUT_CHECK_MASK == RAW_LAYOUT_CHECK_VALUE {
        BuildMetaLayout::RawLayout
    } else {
        BuildMetaLayout::UnknownLayout
    }
}

/// How many build slots a layout has.
pub open spec fn slot_count(layout: BuildMetaLayout) -> u8 {
    match layout {
        BuildMetaLayout::LC2DiskLayout => 2,
        BuildMetaLayout::UTVDiskLayout => 2,
        _ => 1,
    }
}

/// Where slot `index` of a layout starts.
pub open spec fn slot_offset(layout: BuildMetaLayout, index: int) -> u64 {
    match layout {
        BuildMetaLayout::LC2DiskLayout => if index == 0 { LC2_BUILD_OFFSET0 } else { LC2_BUILD_OFFSET1 },
        BuildMetaLayout::WebstarDiskLayout => WEBSTAR_BUILD_OFFSET0,
        BuildMetaLayout::UTVDiskLayout => if index == 0 { UTV_BUILD_OFFSET0 } else { UTV_BUILD_OFFSET1 },
        _ => RAW_BUILD_OFFSET0,
    }
}

/// Where the selector of a two-slot layout lies.
pub open spec fn select_offset(layout: BuildMetaLayout) -> u64 {
    if layout == BuildMetaLayout::LC2DiskLayout {
        LC2_BUILD_SELECT_OFFSET
    } else {
        UTV_BUILD_SELECT_OFFSET
    }
}

/// The selected slot: on a two-slot layout 0 when the selector's first byte
/// is zero, else 1; on any other layout 0.
pub open spec fn selected_index(s: Seq<u8>, c: BuildIODataCollation, layout: BuildMetaLayout) -> u8 {
    if slot_count(layout) == 2 {
        if bytes_at(s, c, select_offset(layout) as int, 4)[0] == 0 { 0 } else { 1 }
    } else {
        0
    }
}

/// The load address that a legacy single-slot build implies by its boot
/// instructions; the header's own field otherwise.
pub open spec fn inferred_base_address(h: BuildHeader) -> u32 {
    let bd = h.branch_and_delay_instructions;
    if bd == 0x1000000900000000u64 || bd == 0x1000000E00000000u64 || bd == 0x1000000F00000000u64 {
        if h.romfs_address == 0x9fe00000u32 {
            0x9fc00000u32
        } else if h.romfs_address > 0x9fe00000u32 {
            0x9fe00000u32
        } else {
            0x9f000000u32
        }
    } else if bd == 0x1000011600000000u64 {
        0x9fc00000u32
    } else {
        h.build_base_address
    }
}

pub open spec fn zero_build_header() -> BuildHeader {
    parse_build_header(zeros(64))
}

pub open spec fn zero_romfs_header() -> ROMFSHeader {
    parse_romfs_header(zeros(8))
}

pub open spec fn default_info() -> BuildInfo {
    BuildInfo {
        available: false,
        build_header: zero_build_header(),
        romfs_header: zero_romfs_header(),
        build_offset: 0,
        romfs_offset: 0,
        calculated_code_checksum: 0,
        calculated_romfs_checksum: 0,
    }
}

/// The header of the build at `off`, with a legacy build's load address filled in.
pub open spec fn header_at(s: Seq<u8>, c: BuildIODataCollation, layout: BuildMetaLayout, off: u64) -> BuildHeader {
    let h = parse_build_header(bytes_at(s, c, off as int, 64));
    if layout == BuildMetaLayout::RawLayout {
        BuildHeader { build_base_address: inferred_base_address(h), ..h }
    } else {
        h
    }
}

/// Where the filesystem lies relative to the build's start.
pub open spec fn romfs_offset_of(h: BuildHeader) -> u64 {
    h.romfs_address.wrapping_sub(h.build_base_address) as u64
}

/// The filesystem header of the build at `off`: zero where it lies past the end.
pub open spec fn romfs_header_at(s: Seq<u8>, c: BuildIODataCollation, off: u64, romfs_offset: u64) -> ROMFSHeader {
    let abs = off.wrapping_add(romfs_offset.wrapping_sub(8));
    if abs <= s.len() { parse_romfs_header(bytes_at(s, c, abs as int, 8)) } else { zero_romfs_header() }
}

/// Where the filesystem region begins, as an absolute stream offset.
pub open spec fn romfs_start(off: u64, romfs_offset: u64, rh: ROMFSHeader) -> u64 {
    let len4 = rh.romfs_dword_length.wrapping_mul(4) as u64;
    off.wrapping_add(romfs_offset.wrapping_sub(len4).wrapping_sub(8))
}

/// The filesystem checksum: zero where the region is empty or ends past the stream.
pub open spec fn romfs_checksum_at(s: Seq<u8>, c: BuildIODataCollation, off: u64, romfs_offset: u64, rh: ROMFSHeader) -> u32 {
    let len4 = rh.romfs_dword_length.wrapping_mul(4) as u64;
    let start = romfs_start(off, romfs_offset, rh);
    if len4 > 0 && start <= s.len() {
        checksum_of(s, c, start as int, rh.romfs_dword_length, None)
    } else {
        0
    }
}

/// Everything derived of the build at `off`.
pub open spec fn buildinfo_at(s: Seq<u8>, c: BuildIODataCollation, layout: BuildMetaLayout, off: u64) -> BuildInfo {
    let raw_header = parse_build_header(bytes_at(s, c, off as int, 64));
    let h = header_at(s, c, layout, off);
    let code = checksum_of(s, c, off as int, raw_header.code_dword_length, Some(CODE_CHECKSUM_SKIP_INDEX));
    let available = off + 64 <= s.len();
    if h.romfs_address == NO_ROMFS_FLAG {
        BuildInfo {
            available,
            build_header: h,
            romfs_header: zero_romfs_header(),
            build_offset: off,
            romfs_offset: 0,
            calculated_code_checksum: code,
            calculated_romfs_checksum: 0,
        }
    } else {
        let ro = romfs_offset_of(h);
        let rh = romfs_header_at(s, c, off, ro);
        BuildInfo {
            available,
            build_header: h,
            romfs_header: rh,
            build_offset: off,
            romfs_offset: ro,
            calculated_code_checksum: code,
            calculated_romfs_checksum: romfs_checksum_at(s, c, off, ro, rh),
        }
    }
}

/// The validation outcome of `info` given whether its load address is acceptable.
pub open spec fn validation_of(info: BuildInfo, base_ok: bool) -> BuildStorageState {
    if info.build_header.code_checksum != info.calculated_code_checksum {
        BuildStorageState::CodeChecksumMismatch
    } else if info.romfs_header.romfs_checksum != info.calculated_romfs_checksum {
        BuildStorageState::RomfsChecksumMismatch
    } else if !base_ok {
        BuildStorageState::BadBaseAddress
    } else {
        BuildStorageState::BuildLooksGood
    }
}

/// Whether `base` lies in one of the inclusive ranges of `accepted`.
pub open spec fn base_accepted(base: u32, accepted: Seq<(u32, u32)>) -> bool {
    exists|i: int| 0 <= i < accepted.len() && accepted[i].0 <= base && base <= accepted[i].1
}

/// The wrapping sums of two streams whose dwords from `start` agree but for
/// dword `j` differ by that dword's change, up to a multiple of 2^32.
proof fn lemma_sum_difference(s: Seq<u8>, t: Seq<u8>, c: BuildIODataCollation, start: int, n: nat, skip: Option<u32>, j: int) -> (q: int)
    requires
        0 <= j,
        skip != Some(j as u32),
        j < 0x1_0000_0000,
        forall|i: int| 0 <= i < n && i != j ==> #[trigger] dword_at(s, c, start + 4 * i) == dword_at(t, c, start + 4 * i),
    ensures
        dword_sum(t, c, start, n, skip) as int - dword_sum(s, c, start, n, skip) as int
            == (if n > j { dword_at(t, c, start + 4 * j) as int - dword_at(s, c, start + 4 * j) as int } else { 0 }) + q * 0x1_0000_0000,
    decreases n,
{
    if n == 0 {
        0
    } else {
        let i = (n - 1) as nat;
        let q0 = lemma_sum_difference(s, t, c, start, i, skip, j);
        let a = dword_sum(s, c, start, i, skip);
        let b = dword_sum(t, c, start, i, skip);
        let x = dword_at(s, c, start + 4 * i);
        let y = dword_at(t, c, start + 4 * i);
        if skip == Some(i as u32) {
            assert(i != j);
            assert(dword_sum(t, c, start, n, skip) as int - dword_sum(s, c, start, n, skip) as int
                == (if n > j { dword_at(t, c, start + 4 * j) as int - dword_at(s, c, start + 4 * j) as int } else { 0 }) + q0 * 0x1_0000_0000);
            q0
        } else {
            let wa = a.wrapping_add(x);
            let wb = b.wrapping_add(y);
            assert(wa as int == a + x || wa as int == a + x - 0x1_0000_0000);
            assert(wb as int == b + y || wb as int == b + y - 0x1_0000_0000);
            if i != j {
                assert(x == y);
            }
            let d = if n > j { dword_at(t, c, start + 4 * j) as int - dword_at(s, c, start + 4 * j) as int } else { 0 };
            if wa as int == a + x && wb as int == b + y {
                assert(wb as int - wa as int == d + q0 * 0x1_0000_0000);
                q0
            } else if wa as int == a + x {
                assert(wb as int - wa as int == d + (q0 - 1) * 0x1_0000_0000);
                q0 - 1
            } else if wb as int == b + y {
                assert(wb as int - wa as int == d + (q0 + 1) * 0x1_0000_0000);
                q0 + 1
            } else {
                assert(wb as int - wa as int == d + q0 * 0x1_0000_0000);
                q0
            }
        }
    }
}

/// What validation reads of a build's code: the stored checksum, the code
/// length and the computed checksum.
proof fn lemma_info_code(s: Seq<u8>, c: BuildIODataCollation, layout: BuildMetaLayout, off: u64)
    ensures
        ({
            let info = buildinfo_at(s, c, layout, off);
            let h = parse_build_header(bytes_at(s, c, off as int, 64));
            &&& info.build_header.code_checksum == h.code_checksum
            &&& info.build_header.code_dword_length == h.code_dword_length
            &&& info.calculated_code_checksum == checksum_of(s, c, off as int, h.code_dword_length, Some(CODE_CHECKSUM_SKIP_INDEX))
        }),
{
}

/// Two 4-byte words that differ in one byte have different big-endian values.
proof fn lemma_be_u32_differs(a: Seq<u8>, b: Seq<u8>, k: int)
    requires
        a.len() == 4,
        b.len() == 4,
        0 <= k < 4,
        a[k] != b[k],
        forall|m: int| 0 <= m < 4 && m != k ==> a[m] == b[m],
    ensures
        be_u32_at(a, 0) != be_u32_at(b, 0),
{
}

/// Changing byte `p` of a raw stream changes the dword holding it and no other.
proof fn lemma_dwords_after_update(s: Seq<u8>, off: int, len: int, j: int, k: int, b: u8)
    requires
        0 <= off,
        off + 4 * len <= s.len(),
        0 <= j < len,
        0 <= k < 4,
        s[off + 4 * j + k] != b,
    ensures
        ({
            let c = BuildIODataCollation::Raw;
            let t = s.update(off + 4 * j + k, b);
            &&& forall|i: int| 0 <= i < len && i != j ==> #[trigger] dword_at(s, c, off + 4 * i) == dword_at(t, c, off + 4 * i)
            &&& dword_at(s, c, off + 4 * j) != dword_at(t, c, off + 4 * j)
        }),
{
    let c = BuildIODataCollation::Raw;
    let t = s.update(off + 4 * j + k, b);
    assert forall|i: int| 0 <= i < len && i != j implies #[trigger] dword_at(s, c, off + 4 * i) == dword_at(t, c, off + 4 * i) by {
        assert(bytes_at(s, c, off + 4 * i, 4) =~= s.subrange(off + 4 * i, off + 4 * i + 4));
        assert(bytes_at(t, c, off + 4 * i, 4) =~= t.subrange(off + 4 * i, off + 4 * i + 4));
        assert(t.subrange(off + 4 * i, off + 4 * i + 4) =~= s.subrange(off + 4 * i, off + 4 * i + 4));
    }
    let ws = bytes_at(s, c, off + 4 * j, 4);
    let wt = bytes_at(t, c, off + 4 * j, 4);
    assert(ws =~= s.subrange(off + 4 * j, off + 4 * j + 4));
    assert(wt =~= t.subrange(off + 4 * j, off + 4 * j + 4));
    lemma_be_u32_differs(ws, wt, k);
}

/// A build whose stored code checksum is the wrapping sum of its code dwords
/// (the checksum dword left out) validates as good when its filesystem
/// checksum and load address match too; changing one byte of any other code
/// dword but the length dword makes it a code checksum mismatch.
#[verifier::rlimit(60)]
pub proof fn lemma_code_checksum_validation(s: Seq<u8>, layout: BuildMetaLayout, off: u64, j: int, k: int, b: u8, base_ok: bool)
    requires
        off + 64 <= s.len(),
        ({
            let info = buildinfo_at(s, BuildIODataCollation::Raw, layout, off);
            &&& info.build_header.code_checksum == info.calculated_code_checksum
            &&& off + 4 * info.build_header.code_dword_length <= s.len()
            &&& info.build_header.code_dword_length <= MAX_CHECKSUM_DWORDS
            &&& 0 <= j < info.build_header.code_dword_length
        }),
        j != CODE_CHECKSUM_SKIP_INDEX,
        j != 4,
        0 <= k < 4,
        s[off + 4 * j + k] != b,
    ensures
        buildinfo_at(s, BuildIODataCollation::Raw, layout, off).romfs_header.romfs_checksum
            == buildinfo_at(s, BuildIODataCollation::Raw, layout, off).calculated_romfs_checksum && base_ok
            ==> validation_of(buildinfo_at(s, BuildIODataCollation::Raw, layout, off), base_ok) == BuildStorageState::BuildLooksGood,
        validation_of(buildinfo_at(s.update(off + 4 * j + k, b), BuildIODataCollation::Raw, layout, off), base_ok)
            == BuildStorageState::CodeChecksumMismatch,
{
    let c = BuildIODataCollation::Raw;
    let t = s.update(off + 4 * j + k, b);
    lemma_info_code(s, c, layout, off);
    lemma_info_code(t, c, layout, off);
    let hs = bytes_at(s, c, off as int, 64);
    let ht = bytes_at(t, c, off as int, 64);
    assert(hs =~= s.subrange(off as int, off + 64));
    assert(ht =~= t.subrange(off as int, off + 64));
    assert(ht.subrange(8, 12) =~= hs.subrange(8, 12));
    assert(ht.subrange(16, 20) =~= hs.subrange(16, 20));
    assert(parse_build_header(ht).code_checksum == parse_build_header(hs).code_checksum);
    assert(parse_build_header(ht).code_dword_length == parse_build_header(hs).code_dword_length);
    let len = parse_build_header(hs).code_dword_length;
    lemma_dwords_after_update(s, off as int, len as int, j, k, b);
    let q = lemma_sum_difference(s, t, c, off as int, len as nat, Some(CODE_CHECKSUM_SKIP_INDEX), j);
    let sum_s = dword_sum(s, c, off as int, len as nat, Some(CODE_CHECKSUM_SKIP_INDEX));
    let sum_t = dword_sum(t, c, off as int, len as nat, Some(CODE_CHECKSUM_SKIP_INDEX));
    assert(sum_t != sum_s) by {
        if sum_t == sum_s {
            let d = dword_at(t, c, off + 4 * j) as int - dword_at(s, c, off + 4 * j) as int;
            assert(d + q * 0x1_0000_0000 == 0);
            if q > 0 {
                assert(q * 0x1_0000_0000 >= 0x1_0000_0000);
            } else if q < 0 {
                assert(q * 0x1_0000_0000 <= -0x1_0000_0000);
            }
        }
    }
}

/// The four layout classes: the magic at the larger offset gives the
/// UltimateTV layout; the magic at the smaller offset with the Webstar
/// partition count and type gives the Webstar layout, without them the LC2
/// layout; no magic and the legacy instruction pattern at offset 0 gives the
/// raw layout; nothing of these, an unknown layout.
pub proof fn lemma_layout_classes(s: Seq<u8>, c: BuildIODataCollation)
    ensures
        ({
            let utv = s.len() > UTV_PARTITION_TABLE_OFFSET && dword_at(s, c, (UTV_PARTITION_TABLE_OFFSET + PARTITION_TABLE_MAGIC_OFFSET) as int) == PARTITION_TABLE_MAGIC;
            let lc2 = s.len() > LC2_PARTITION_TABLE_OFFSET && dword_at(s, c, (LC2_PARTITION_TABLE_OFFSET + PARTITION_TABLE_MAGIC_OFFSET) as int) == PARTITION_TABLE_MAGIC;
            let webstar = dword_at(s, c, (LC2_PARTITION_TABLE_OFFSET + WEBSTAR_PART_COUNT_CHECK_OFFSET) as int) >= 2
                && dword_at(s, c, (LC2_PARTITION_TABLE_OFFSET + WEBSTAR_PART_TYPE_CHECK_OFFSET) as int) == WEBSTAR_PART_TYPE_CHECK_VALUE;
            let raw = dword_at(s, c, 0) & RAW_LAYOUT_CHECK_MASK == RAW_LAYOUT_CHECK_VALUE;
            &&& utv ==> detect_layout(s, c) == BuildMetaLayout::UTVDiskLayout
            &&& !utv && lc2 && webstar ==> detect_layout(s, c) == BuildMetaLayout::WebstarDiskLayout
            &&& !utv && lc2 && !webstar ==> detect_layout(s, c) == BuildMetaLayout::LC2DiskLayout
            &&& !utv && !lc2 && raw ==> detect_layout(s, c) == BuildMetaLayout::RawLayout
            &&& !utv && !lc2 && !raw ==> detect_layout(s, c) == BuildMetaLayout::UnknownLayout
            &&& slot_count(detect_layout(s, c)) == if utv || (lc2 && !webstar) { 2u8 } else { 1u8 }
        }),
{
}

/// Every read of the handle succeeds.
pub open spec fn reads_ok<IO: BuildIO>(io: IO) -> bool {
    forall|p: int, n: int| #[trigger] io.read_ok(p, n)
}

proof fn lemma_reads_ok_kept<IO: BuildIO>(a: IO, b: IO)
    requires
        forall|p: int, n: int| #[trigger] b.read_ok(p, n) == a.read_ok(p, n),
    ensures
        reads_ok(b) == reads_ok(a),
{
    if reads_ok(a) {
        assert forall|p: int, n: int| #[trigger] b.read_ok(p, n) by {
            assert(a.read_ok(p, n));
        }
    }
    if reads_ok(b) {
        assert forall|p: int, n: int| #[trigger] a.read_ok(p, n) by {
            assert(b.read_ok(p, n));
        }
    }
}

/// The two handles hold the same stream, staged bytes and settings.
pub open spec fn io_kept<IO: BuildIO>(a: IO, b: IO) -> bool {
    &&& b.inv()
    &&& b.stream() == a.stream()
    &&& b.staged() == a.staged()
    &&& b.collation_spec() == a.collation_spec()
    &&& b.path_spec() == a.path_spec()
    &&& b.infallible() == a.infallible()
    &&& forall|p: int, n: int| #[trigger] b.read_ok(p, n) == a.read_ok(p, n)
    &&& b.backend() == a.backend()
    &&& forall|buf: Seq<u8>| #[trigger] b.write_image(buf) == a.write_image(buf)
}

impl BuildHeader {
    /// Reads the header from its 64 big-endian bytes.
    pub fn from_bytes(b: &Vec<u8>) -> (r: BuildHeader)
        requires
            b@.len() >= 64,
        ensures
            r == parse_build_header(b@),
    {
        BuildHeader {
            branch_and_delay_instructions: read_be_u64(b, 0),
            code_checksum: read_be_u32(b, 8),
            build_dword_length: read_be_u32(b, 12),
            code_dword_length: read_be_u32(b, 16),
            build_version: read_be_u32(b, 20),
            data_section_address: read_be_u32(b, 24),
            data_section_length: read_be_u32(b, 28),
            bss_section_length: read_be_u32(b, 32),
            romfs_address: read_be_u32(b, 36),
            lzj_data_version: read_be_u32(b, 40),
            lzj_data_length: read_be_u32(b, 44),
            build_base_address: read_be_u32(b, 48),
            build_flags: read_be_u32(b, 52),
            data_section_compressed_length: read_be_u32(b, 56),
            compressed_bootrom_address: read_be_u32(b, 60),
        }
    }

    /// The load address that a legacy single-slot build implies.
    pub fn inferred_base_address(&self) -> (r: u32)
        ensures
            r == inferred_base_address(*self),
    {
        let bd = self.branch_and_delay_instructions;
        if bd == 0x1000000900000000u64 || bd == 0x1000000E00000000u64 || bd == 0x1000000F00000000u64 {
            if self.romfs_address == 0x9fe00000u32 {
                // bootrom of either era
                0x9fc00000u32
            } else if self.romfs_address > 0x9fe00000u32 {
                // approm loaded high
                0x9fe00000u32
            } else {
                // approm loaded low
                0x9f000000u32
            }
        } else if bd == 0x1000011600000000u64 {
            // later bootrom
            0x9fc00000u32
        } else {
            self.build_base_address
        }
    }
}

impl ROMFSHeader {
    /// Reads the filesystem header from its 8 big-endian bytes.
    pub fn from_bytes(b: &Vec<u8>) -> (r: ROMFSHeader)
        requires
            b@.len() >= 8,
        ensures
            r == parse_romfs_header(b@),
    {
        ROMFSHeader { romfs_dword_length: read_be_u32(b, 0), romfs_checksum: read_be_u32(b, 4) }
    }
}

impl BuildInfo {
    /// Validates the build: code checksum, then filesystem checksum, then
    /// whether the load address lies in one of the inclusive `accepted` ranges.
    pub fn validation_state(&self, accepted: &Vec<(u32, u32)>) -> (r: BuildStorageState)
        ensures
            r == validation_of(*self, base_accepted(self.build_header.build_base_address, accepted@)),
    {
        let base = self.build_header.build_base_address;
        let mut base_ok = false;
        let mut i: usize = 0;
        while i < accepted.len()
            invariant
                i <= accepted@.len(),
                base_ok == exists|j: int| 0 <= j < i && accepted@[j].0 <= base && base <= accepted@[j].1,
            decreases accepted@.len() - i,
        {
            let (lo, hi) = accepted[i];
            if lo <= base && base <= hi {
                base_ok = true;
            }
            i = i + 1;
        }
        if self.build_header.code_checksum != self.calculated_code_checksum {
            BuildStorageState::CodeChecksumMismatch
        } else if self.romfs_header.romfs_checksum != self.calculated_romfs_checksum {
            BuildStorageState::RomfsChecksumMismatch
        } else if !base_ok {
            BuildStorageState::BadBaseAddress
        } else {
            BuildStorageState::BuildLooksGood
        }
    }
}

/// The builds of one image, read through a storage handle.
pub struct BuildMeta<IO: BuildIO> {
    pub file_path: String,
    pub collation: BuildIODataCollation,
    pub layout: BuildMetaLayout,
    pub build_count: u8,
    pub selected_build_index: u8,
    pub build_info: [BuildInfo; 2],
    pub io: IO,
}

impl BuildMeta<ROMIO> {
    /// Reads the builds of a ROM image or chip pair (see `ROMIO::open`).
    pub fn open_rom(file_path: String, collation: Option<BuildIODataCollation>, image: Vec<u8>, second_chip: Option<Vec<u8>>) -> (r: Result<BuildMeta<ROMIO>, BuildIOError>)
        ensures
            ({
                let c = match collation { Some(c) => c, None => BuildIODataCollation::Raw };
                &&& r is Ok <==> (c != BuildIODataCollation::StrippedROMs || (second_chip is Some && image@.len() * 2 <= usize::MAX))
                &&& c == BuildIODataCollation::StrippedROMs && second_chip is None ==> r == Err::<BuildMeta<ROMIO>, BuildIOError>(BuildIOError::NotFound)
                &&& c == BuildIODataCollation::StrippedROMs && second_chip is Some && image@.len() * 2 > usize::MAX
                    ==> r == Err::<BuildMeta<ROMIO>, BuildIOError>(BuildIOError::OutOfRange)
                &&& c != BuildIODataCollation::StrippedROMs ==> r is Ok && r->Ok_0.describes(image@, c)
                &&& c == BuildIODataCollation::StrippedROMs && r is Ok ==> r->Ok_0.describes(interleave(image@, second_chip->Some_0@), c)
                &&& r is Ok ==> r->Ok_0.file_path@ == file_path@
            }),
            r is Ok ==> r->Ok_0.describes(r->Ok_0.handle().stream(), r->Ok_0.handle().collation_spec()),
    {
        match ROMIO::open(file_path, collation, image, second_chip) {
            Ok(srcf) => BuildMeta::new(srcf),
            Err(e) => Err(e),
        }
    }
}

impl BuildMeta<DiskIO> {
    /// Reads the builds of a disk image: a compressed hunk container when the
    /// path ends in `.chd` or `.dif`, a raw image otherwise (see `DiskIO::open`).
    pub fn open_disk(file_path: String, collation: Option<BuildIODataCollation>, image: Vec<u8>, diff: Option<Vec<u8>>) -> (r: Result<BuildMeta<DiskIO>, BuildIOError>)
        ensures
            !is_container_name(file_path@) ==> r is Ok && r->Ok_0.describes(image@, match collation { Some(c) => c, None => BuildIODataCollation::Raw }),
            is_container_name(file_path@) ==> (r is Ok <==> hunk_open_ok(image@, image_view(diff))),
            r is Ok ==> r->Ok_0.file_path@ == file_path@
                && r->Ok_0.collation == (match collation { Some(c) => c, None => BuildIODataCollation::Raw }),
            r is Ok ==> r->Ok_0.io.backend() == if is_container_name(file_path@) { 1nat } else { 0nat },
            r is Ok && reads_ok(r->Ok_0.handle()) ==> r->Ok_0.describes(r->Ok_0.handle().stream(), r->Ok_0.handle().collation_spec()),
    {
        match DiskIO::open(file_path, collation, image, diff) {
            Ok(srcf) => {
                let ghost io0 = srcf;
                let r = BuildMeta::new(srcf);
                proof {
                    if r is Ok {
                        lemma_reads_ok_kept(io0, r->Ok_0.io);
                    }
                }
                r
            },
            Err(e) => Err(e),
        }
    }
}

impl BuildMeta<FlashdiskIO> {
    /// Reads the builds of a NAND flash dump (see `FlashdiskIO::open`).
    pub fn open_flashdisk(file_path: String, collation: Option<BuildIODataCollation>, image: Vec<u8>) -> (r: Result<BuildMeta<FlashdiskIO>, BuildIOError>)
        ensures
            r is Ok <==> dump_fits(image@.len() as int),
            r is Ok ==> r->Ok_0.describes(r->Ok_0.handle().stream(), r->Ok_0.handle().collation_spec()),
    {
        match FlashdiskIO::open(file_path, collation, image) {
            Ok(srcf) => BuildMeta::new(srcf),
            Err(e) => Err(e),
        }
    }
}

/// The checksum law at the metadata that `BuildMeta::new` reports: when `m`
/// holds the first build of a raw-collation stream `s` whose code checksum is
/// right, and `flipped` holds that build after one byte of a code dword (not
/// the checksum nor the length dword) changes, under the same layout, the
/// first reports looks-good (when its filesystem checksum and load address
/// match) and the second a code checksum mismatch.
pub proof fn lemma_reported_checksum<IO: BuildIO>(m: BuildMeta<IO>, flipped: BuildMeta<IO>, s: Seq<u8>, j: int, k: int, b: u8, base_ok: bool)
    requires
        m.describes(s, BuildIODataCollation::Raw),
        flipped.describes(s.update(slot_offset(m.layout, 0) + 4 * j + k, b), BuildIODataCollation::Raw),
        flipped.layout == m.layout,
        slot_offset(m.layout, 0) + 64 <= s.len(),
        m.build_info[0].build_header.code_checksum == m.build_info[0].calculated_code_checksum,
        slot_offset(m.layout, 0) + 4 * m.build_info[0].build_header.code_dword_length <= s.len(),
        m.build_info[0].build_header.code_dword_length <= MAX_CHECKSUM_DWORDS,
        0 <= j < m.build_info[0].build_header.code_dword_length,
        j != CODE_CHECKSUM_SKIP_INDEX,
        j != 4,
        0 <= k < 4,
        s[slot_offset(m.layout, 0) + 4 * j + k] != b,
    ensures
        m.build_info[0].romfs_header.romfs_checksum == m.build_info[0].calculated_romfs_checksum && base_ok
            ==> validation_of(m.build_info[0], base_ok) == BuildStorageState::BuildLooksGood,
        validation_of(flipped.build_info[0], base_ok) == BuildStorageState::CodeChecksumMismatch,
{
    lemma_code_checksum_validation(s, m.layout, slot_offset(m.layout, 0), j, k, b, base_ok);
}

impl<IO: BuildIO> BuildMeta<IO> {
    pub open spec fn handle(&self) -> IO {
        self.io
    }

    /// The metadata is what stream `s` under collation `c` holds where the
    /// reads succeeded, and the defaults where they did not: the detected
    /// layout or an unknown one, its slot count, a selected slot among them,
    /// and each slot's build or the default build.
    pub open spec fn holds_builds_of(&self, s: Seq<u8>, c: BuildIODataCollation) -> bool {
        let layout = self.layout;
        &&& layout == detect_layout(s, c) || layout == BuildMetaLayout::UnknownLayout
        &&& self.collation == c
        &&& self.build_count == slot_count(layout)
        &&& self.selected_build_index < self.build_count
        &&& self.build_info[0] == buildinfo_at(s, c, layout, slot_offset(layout, 0)) || self.build_info[0] == default_info()
        &&& slot_count(layout) == 2 ==> self.build_info[1] == buildinfo_at(s, c, layout, slot_offset(layout, 1))
            || self.build_info[1] == default_info()
        &&& slot_count(layout) == 1 ==> self.build_info[1] == default_info()
    }

    /// The metadata is what stream `s` under collation `c` holds.
    pub open spec fn describes(&self, s: Seq<u8>, c: BuildIODataCollation) -> bool {
        let layout = detect_layout(s, c);
        &&& self.layout == layout
        &&& self.collation == c
        &&& self.build_count == slot_count(layout)
        &&& self.selected_build_index == selected_index(s, c, layout)
        &&& self.build_info[0] == buildinfo_at(s, c, layout, slot_offset(layout, 0))
        &&& slot_count(layout) == 2 ==> self.build_info[1] == buildinfo_at(s, c, layout, slot_offset(layout, 1))
        &&& slot_count(layout) == 1 ==> self.build_info[1] == default_info()
    }

    /// Reads the builds that `build_io` holds. This never fails: what cannot
    /// be read is left at its defaults.
    pub fn new(build_io: IO) -> (r: Result<BuildMeta<IO>, BuildIOError>)
        requires
            build_io.inv(),
        ensures
            r is Ok,
            r is Ok ==> io_kept(build_io, r->Ok_0.handle()) && r->Ok_0.file_path@ == build_io.path_spec(),
            r is Ok ==> r->Ok_0.holds_builds_of(build_io.stream(), build_io.collation_spec()),
            r is Ok && (build_io.infallible() || reads_ok(build_io)) ==> r->Ok_0.describes(build_io.stream(), build_io.collation_spec()),
    {
        proof {
            build_io.lemma_inv();
        }
        let mut wtv_buildmeta = BuildMeta::default_buildmeta(build_io);
        wtv_buildmeta.file_path = wtv_buildmeta.io.file_path();
        wtv_buildmeta.collation = wtv_buildmeta.io.collation();
        wtv_buildmeta.refresh();
        proof {
            lemma_reads_ok_kept(build_io, wtv_buildmeta.io);
        }
        Ok(wtv_buildmeta)
    }

    /// Detects the layout again and reloads every build.
    fn refresh(&mut self)
        requires
            old(self).io.inv(),
            old(self).collation == old(self).io.collation_spec(),
        ensures
            io_kept(old(self).io, final(self).io),
            final(self).file_path == old(self).file_path,
            final(self).collation == old(self).collation,
            final(self).holds_builds_of(final(self).io.stream(), final(self).io.collation_spec()),
            reads_ok(final(self).io) ==> final(self).describes(final(self).io.stream(), final(self).io.collation_spec()),
    {
        let ghost io0 = self.io;
        self.layout = match self.get_layout() {
            Ok(layout) => layout,
            Err(_) => BuildMetaLayout::UnknownLayout,
        };
        proof {
            lemma_reads_ok_kept(io0, self.io);
        }
        let ghost io1 = self.io;
        self.load_buildinfo();
        proof {
            lemma_reads_ok_kept(io1, self.io);
        }
    }

    fn default_buildmeta(build_io: IO) -> (r: BuildMeta<IO>)
        ensures
            r.io == build_io,
            r.layout == BuildMetaLayout::UnknownLayout,
            r.build_count == 0,
            r.selected_build_index == 0,
            r.build_info[0] == default_info(),
            r.build_info[1] == default_info(),
            r.collation == BuildIODataCollation::Raw,
            r.file_path@ == Seq::<char>::empty(),
    {
        proof { reveal_strlit(""); }
        BuildMeta {
            file_path: String::from_str(""),
            collation: BuildIODataCollation::Raw,
            layout: BuildMetaLayout::UnknownLayout,
            build_count: 0,
            selected_build_index: 0,
            build_info: [BuildMeta::<IO>::default_buildinfo(), BuildMeta::<IO>::default_buildinfo()],
            io: build_io,
        }
    }

    fn default_buildinfo() -> (r: BuildInfo)
        ensures
            r == default_info(),
    {
        BuildInfo {
            available: false,
            build_header: BuildMeta::<IO>::default_build_header(),
            romfs_header: BuildMeta::<IO>::default_romfs_header(),
            build_offset: 0,
            romfs_offset: 0,
            calculated_code_checksum: 0,
            calculated_romfs_checksum: 0,
        }
    }

    fn default_build_header() -> (r: BuildHeader)
        ensures
            r == zero_build_header(),
    {
        let b = filled(0, BUILD_HEADER_SIZE);
        BuildHeader::from_bytes(&b)
    }

    fn default_romfs_header() -> (r: ROMFSHeader)
        ensures
            r == zero_romfs_header(),
    {
        let b = filled(0, ROMFS_HEADER_SIZE);
        ROMFSHeader::from_bytes(&b)
    }

    /// Reads `n` bytes at `pos` into a zeroed buffer.
    fn read_at(&mut self, pos: u64, n: usize) -> (r: Result<Vec<u8>, BuildIOError>)
        requires
            old(self).io.inv(),
            n >= 4,
            n % 2 == 0,
        ensures
            io_kept(old(self).io, final(self).io),
            final(self).file_path == old(self).file_path,
            final(self).collation == old(self).collation,
            final(self).layout == old(self).layout,
            final(self).build_count == old(self).build_count,
            final(self).selected_build_index == old(self).selected_build_index,
            final(self).build_info == old(self).build_info,
            reads_ok(old(self).io) ==> r is Ok,
            r is Ok ==> r->Ok_0@ == bytes_at(old(self).io.stream(), old(self).io.collation_spec(), pos as int, n as nat)
                && r->Ok_0@.len() == n,
    {
        proof {
            self.io.lemma_inv();
        }
        let len = self.io.len();
        let clamped = if pos <= len { pos } else { len };
        match self.io.seek(clamped) {
            Ok(_) => {},
            Err(e) => {
                return Err(e);
            },
        }
        let mut buf = filled(0, n);
        proof {
            self.io.lemma_inv();
            assert(buf@ == zeros(n as nat));
        }
        match self.io.read(&mut buf) {
            Ok(_) => Ok(buf),
            Err(e) => Err(e),
        }
    }

    /// The big-endian dword at `pos`.
    fn read_dword(&mut self, pos: u64) -> (r: Result<u32, BuildIOError>)
        requires
            old(self).io.inv(),
        ensures
            io_kept(old(self).io, final(self).io),
            final(self).file_path == old(self).file_path,
            final(self).collation == old(self).collation,
            final(self).layout == old(self).layout,
            final(self).build_count == old(self).build_count,
            final(self).selected_build_index == old(self).selected_build_index,
            final(self).build_info == old(self).build_info,
            reads_ok(old(self).io) ==> r is Ok,
            r is Ok ==> r->Ok_0 == dword_at(old(self).io.stream(), old(self).io.collation_spec(), pos as int),
    {
        match self.read_at(pos, 4) {
            Ok(b) => Ok(read_be_u32(&b, 0)),
            Err(e) => Err(e),
        }
    }

    fn get_layout(&mut self) -> (r: Result<BuildMetaLayout, BuildIOError>)
        requires
            old(self).io.inv(),
        ensures
            io_kept(old(self).io, final(self).io),
            final(self).file_path == old(self).file_path,
            final(self).collation == old(self).collation,
            final(self).build_info == old(self).build_info,
            reads_ok(old(self).io) ==> r is Ok,
            r is Ok ==> r == Ok::<BuildMetaLayout, BuildIOError>(detect_layout(old(self).io.stream(), old(self).io.collation_spec())),
    {
        let file_size = self.io.len();
        if file_size > UTV_PARTITION_TABLE_OFFSET {
            let magic = self.read_dword(UTV_PARTITION_TABLE_OFFSET + PARTITION_TABLE_MAGIC_OFFSET)?;
            if magic == PARTITION_TABLE_MAGIC {
                return Ok(BuildMetaLayout::UTVDiskLayout);
            }
        }
        if file_size > LC2_PARTITION_TABLE_OFFSET {
            let magic = self.read_dword(LC2_PARTITION_TABLE_OFFSET + PARTITION_TABLE_MAGIC_OFFSET)?;
            if magic == PARTITION_TABLE_MAGIC {
                let partition_count = self.read_dword(LC2_PARTITION_TABLE_OFFSET + WEBSTAR_PART_COUNT_CHECK_OFFSET)?;
                if partition_count >= 2 {
                    let partition_type = self.read_dword(LC2_PARTITION_TABLE_OFFSET + WEBSTAR_PART_TYPE_CHECK_OFFSET)?;
                    if partition_type == WEBSTAR_PART_TYPE_CHECK_VALUE {
                        return Ok(BuildMetaLayout::WebstarDiskLayout);
                    }
                }
                return Ok(BuildMetaLayout::LC2DiskLayout);
            }
        }
        let raw_check = self.read_dword(RAW_LAYOUT_CHECK_OFFSET)?;
        if raw_check & RAW_LAYOUT_CHECK_MASK == RAW_LAYOUT_CHECK_VALUE {
            return Ok(BuildMetaLayout::RawLayout);
        }
        Ok(BuildMetaLayout::UnknownLayout)
    }

    #[verifier::rlimit(80)]
    fn load_buildinfo(&mut self)
        requires
            old(self).io.inv(),
            old(self).collation == old(self).io.collation_spec(),
            reads_ok(old(self).io) ==> old(self).layout == detect_layout(old(self).io.stream(), old(self).io.collation_spec()),
        ensures
            io_kept(old(self).io, final(self).io),
            final(self).file_path == old(self).file_path,
            final(self).collation == old(self).collation,
            final(self).layout == old(self).layout,
            final(self).build_count == slot_count(final(self).layout),
            final(self).selected_build_index < final(self).build_count,
            final(self).build_info[0] == buildinfo_at(final(self).io.stream(), final(self).io.collation_spec(), final(self).layout,
                slot_offset(final(self).layout, 0)) || final(self).build_info[0] == default_info(),
            slot_count(final(self).layout) == 2 ==> final(self).build_info[1] == buildinfo_at(final(self).io.stream(),
                final(self).io.collation_spec(), final(self).layout, slot_offset(final(self).layout, 1)) || final(self).build_info[1] == default_info(),
            slot_count(final(self).layout) == 1 ==> final(self).build_info[1] == default_info(),
            reads_ok(final(self).io) ==> final(self).describes(final(self).io.stream(), final(self).io.collation_spec()),
    {
        let layout = self.layout;
        if layout == BuildMetaLayout::LC2DiskLayout || layout == BuildMetaLayout::UTVDiskLayout {
            let (off0, off1) = if layout == BuildMetaLayout::LC2DiskLayout {
                (LC2_BUILD_OFFSET0, LC2_BUILD_OFFSET1)
            } else {
                (UTV_BUILD_OFFSET0, UTV_BUILD_OFFSET1)
            };
            self.build_count = 2;
            self.selected_build_index = match self.get_selected_build_index() {
                Ok(index) => index,
                Err(_) => 1,
            };
            proof {
                lemma_reads_ok_kept(old(self).io, self.io);
            }
            self.build_info[0] = match self.get_buildinfo(off0) {
                Ok(info) => info,
                Err(_) => BuildMeta::<IO>::default_buildinfo(),
            };
            proof {
                lemma_reads_ok_kept(old(self).io, self.io);
            }
            self.build_info[1] = match self.get_buildinfo(off1) {
                Ok(info) => info,
                Err(_) => BuildMeta::<IO>::default_buildinfo(),
            };
            proof {
                lemma_reads_ok_kept(old(self).io, self.io);
            }
        } else {
            let off0 = if layout == BuildMetaLayout::WebstarDiskLayout {
                WEBSTAR_BUILD_OFFSET0
            } else {
                RAW_BUILD_OFFSET0
            };
            self.build_count = 1;
            self.selected_build_index = 0;
            self.build_info[0] = match self.get_buildinfo(off0) {
                Ok(info) => info,
                Err(_) => BuildMeta::<IO>::default_buildinfo(),
            };
            proof {
                lemma_reads_ok_kept(old(self).io, self.io);
            }
            self.build_info[1] = BuildMeta::<IO>::default_buildinfo();
        }
    }

    fn get_selected_build_index(&mut self) -> (r: Result<u8, BuildIOError>)
        requires
            old(self).io.inv(),
        ensures
            io_kept(old(self).io, final(self).io),
            final(self).file_path == old(self).file_path,
            final(self).collation == old(self).collation,
            final(self).layout == old(self).layout,
            final(self).build_count == old(self).build_count,
            final(self).build_info == old(self).build_info,
            reads_ok(old(self).io) ==> r is Ok,
            r is Ok ==> r == Ok::<u8, BuildIOError>(selected_index(old(self).io.stream(), old(self).io.collation_spec(), old(self).layout)),
    {
        if self.layout == BuildMetaLayout::LC2DiskLayout || self.layout == BuildMetaLayout::UTVDiskLayout {
            let offset = if self.layout == BuildMetaLayout::LC2DiskLayout {
                LC2_BUILD_SELECT_OFFSET
            } else {
                UTV_BUILD_SELECT_OFFSET
            };
            proof {
                self.io.lemma_inv();
            }
            if offset > self.io.len() {
                // a stream that short has no selector
                return Ok(0);
            }
            let selector = self.read_at(offset, 4)?;
            if selector[0] == 0 {
                Ok(0)
            } else {
                Ok(1)
            }
        } else {
            Ok(0)
        }
    }

    fn get_buildinfo(&mut self, build_offset: u64) -> (r: Result<BuildInfo, BuildIOError>)
        requires
            old(self).io.inv(),
        ensures
            io_kept(old(self).io, final(self).io),
            final(self).file_path == old(self).file_path,
            final(self).collation == old(self).collation,
            final(self).layout == old(self).layout,
            final(self).build_count == old(self).build_count,
            final(self).selected_build_index == old(self).selected_build_index,
            final(self).build_info == old(self).build_info,
            reads_ok(old(self).io) ==> r is Ok,
            r is Ok ==> r == Ok::<BuildInfo, BuildIOError>(buildinfo_at(old(self).io.stream(), old(self).io.collation_spec(), old(self).layout, build_offset)),
    {
        let ghost s = self.io.stream();
        let ghost c = self.io.collation_spec();
        proof {
            self.io.lemma_inv();
        }
        let data_length = self.io.len();
        let mut buildinfo = BuildMeta::<IO>::default_buildinfo();
        buildinfo.build_offset = build_offset;
        buildinfo.available = build_offset <= data_length && data_length - build_offset >= BUILD_HEADER_SIZE as u64;
        let raw_header = self.get_build_header(build_offset)?;
        buildinfo.calculated_code_checksum = self.calculate_dword_checksum(build_offset, raw_header.code_dword_length, Some(CODE_CHECKSUM_SKIP_INDEX))?;
        let mut header = raw_header;
        if self.layout == BuildMetaLayout::RawLayout {
            header.build_base_address = raw_header.inferred_base_address();
        }
        buildinfo.build_header = header;
        if header.romfs_address != NO_ROMFS_FLAG {
            let romfs_offset = header.romfs_address.wrapping_sub(header.build_base_address) as u64;
            buildinfo.romfs_offset = romfs_offset;
            let romfs_header = self.get_romfs_header(build_offset, romfs_offset)?;
            buildinfo.romfs_header = romfs_header;
            let romfs_length = romfs_header.romfs_dword_length.wrapping_mul(4) as u64;
            let romfs_begin = build_offset.wrapping_add(romfs_offset.wrapping_sub(romfs_length).wrapping_sub(8));
            if romfs_length > 0 && romfs_begin <= data_length {
                buildinfo.calculated_romfs_checksum = self.calculate_dword_checksum(romfs_begin, romfs_header.romfs_dword_length, None)?;
            }
        }
        Ok(buildinfo)
    }

    fn get_build_header(&mut self, build_offset: u64) -> (r: Result<BuildHeader, BuildIOError>)
        requires
            old(self).io.inv(),
        ensures
            io_kept(old(self).io, final(self).io),
            final(self).file_path == old(self).file_path,
            final(self).collation == old(self).collation,
            final(self).layout == old(self).layout,
            final(self).build_count == old(self).build_count,
            final(self).selected_build_index == old(self).selected_build_index,
            final(self).build_info == old(self).build_info,
            reads_ok(old(self).io) ==> r is Ok,
            r is Ok ==> r == Ok::<BuildHeader, BuildIOError>(parse_build_header(bytes_at(old(self).io.stream(), old(self).io.collation_spec(), build_offset as int, 64))),
    {
        let bytes = self.read_at(build_offset, BUILD_HEADER_SIZE)?;
        Ok(BuildHeader::from_bytes(&bytes))
    }

    fn get_romfs_header(&mut self, build_offset: u64, romfs_offset: u64) -> (r: Result<ROMFSHeader, BuildIOError>)
        requires
            old(self).io.inv(),
        ensures
            io_kept(old(self).io, final(self).io),
            final(self).file_path == old(self).file_path,
            final(self).collation == old(self).collation,
            final(self).layout == old(self).layout,
            final(self).build_count == old(self).build_count,
            final(self).selected_build_index == old(self).selected_build_index,
            final(self).build_info == old(self).build_info,
            reads_ok(old(self).io) ==> r is Ok,
            r is Ok ==> r == Ok::<ROMFSHeader, BuildIOError>(romfs_header_at(old(self).io.stream(), old(self).io.collation_spec(), build_offset, romfs_offset)),
    {
        let romfs_header_offset = build_offset.wrapping_add(romfs_offset.wrapping_sub(ROMFS_HEADER_SIZE as u64));
        if romfs_header_offset <= self.io.len() {
            let bytes = self.read_at(romfs_header_offset, ROMFS_HEADER_SIZE)?;
            Ok(ROMFSHeader::from_bytes(&bytes))
        } else {
            Ok(BuildMeta::<IO>::default_romfs_header())
        }
    }

    /// The wrapping sum of `length` big-endian dwords from `start`, leaving
    /// out dword number `skip`; zero beyond the sanity ceiling.
    fn calculate_dword_checksum(&mut self, start: u64, length: u32, skip: Option<u32>) -> (r: Result<u32, BuildIOError>)
        requires
            old(self).io.inv(),
        ensures
            io_kept(old(self).io, final(self).io),
            final(self).file_path == old(self).file_path,
            final(self).collation == old(self).collation,
            final(self).layout == old(self).layout,
            final(self).build_count == old(self).build_count,
            final(self).selected_build_index == old(self).selected_build_index,
            final(self).build_info == old(self).build_info,
            start > old(self).io.stream().len() || length > MAX_CHECKSUM_DWORDS ==> r == Ok::<u32, BuildIOError>(0),
            reads_ok(old(self).io) ==> r is Ok,
            r is Ok ==> r == Ok::<u32, BuildIOError>(checksum_of(old(self).io.stream(), old(self).io.collation_spec(), start as int, length, skip)),
    {
        let ghost s = self.io.stream();
        let ghost c = self.io.collation_spec();
        proof {
            self.io.lemma_inv();
        }
        // a region past the end, or beyond the sanity ceiling, sums to zero
        if length > MAX_CHECKSUM_DWORDS || start > self.io.len() {
            return Ok(0);
        }
        let _ = self.io.seek(start)?;
        let mut checksum: u32 = 0;
        {
            let mut dword_index: u32 = 0;
            while dword_index < length
                invariant
                    io_kept(old(self).io, self.io),
                    s == old(self).io.stream(),
                    c == old(self).io.collation_spec(),
                    start <= s.len(),
                    self.file_path == old(self).file_path,
                    self.collation == old(self).collation,
                    self.layout == old(self).layout,
                    self.build_count == old(self).build_count,
                    self.selected_build_index == old(self).selected_build_index,
                    self.build_info == old(self).build_info,
                    dword_index <= length,
                    length <= MAX_CHECKSUM_DWORDS,
                    self.io.position() == if start + 4 * dword_index <= s.len() { start + 4 * dword_index } else { s.len() as int },
                    checksum == dword_sum(s, c, start as int, dword_index as nat, skip),
                decreases length - dword_index,
            {
                let mut code_chunk = filled(0, 4);
                proof {
                    self.io.lemma_inv();
                    assert(code_chunk@ == zeros(4));
                }
                let _ = self.io.read(&mut code_chunk)?;
                let value = read_be_u32(&code_chunk, 0);
                let skipped = match skip {
                    Some(k) => k == dword_index,
                    None => false,
                };
                if !skipped {
                    checksum = checksum.wrapping_add(value);
                }
                dword_index = dword_index + 1;
            }
        }
        Ok(checksum)
    }

    /// Selects build slot `index` (0 or 1) of a two-slot layout: rewrites the
    /// first byte of the selector and commits.
    pub fn set_selected_build_index(&mut self, index: u8) -> (r: Result<(), BuildIOError>)
        requires
            old(self).io.inv(),
        ensures
            final(self).io.inv(),
            old(self).build_count != 2 || index > 1 ==> r == Err::<(), BuildIOError>(BuildIOError::OutOfRange),
            old(self).build_count == 2 && index <= 1 && old(self).io.infallible()
                && select_offset(old(self).layout) <= old(self).io.stream().len() ==> r is Ok,
            r is Ok ==> final(self).selected_build_index == index && final(self).io.stream() == splice(
                old(self).io.staged(),
                select_offset(old(self).layout) as int,
                old(self).io.write_image(bytes_at(old(self).io.stream(), old(self).io.collation_spec(), select_offset(old(self).layout) as int, 4).update(0, index)),
            ),
    {
        if self.build_count != 2 || index > 1 {
            return Err(BuildIOError::OutOfRange);
        }
        let offset = if self.layout == BuildMetaLayout::LC2DiskLayout {
            LC2_BUILD_SELECT_OFFSET
        } else {
            UTV_BUILD_SELECT_OFFSET
        };
        proof {
            self.io.lemma_inv();
        }
        let mut selector = self.read_at(offset, 4)?;
        selector.set(0, index);
        let _ = self.io.seek(offset)?;
        proof {
            self.io.lemma_inv();
            assert(self.io.accepts_read(4));
            assert(selector@.len() == 4);
        }
        let _ = self.io.write(&selector)?;
        proof {
            self.io.lemma_inv();
        }
        self.io.commit()?;
        self.selected_build_index = index;
        Ok(())
    }

    /// Overwrites build slot `index` with `data` through the handle's write
    /// path, commits, and reads the builds again.
    pub fn write_build(&mut self, index: u8, data: &Vec<u8>) -> (r: Result<usize, BuildIOError>)
        requires
            old(self).io.inv(),
            old(self).collation == old(self).io.collation_spec(),
        ensures
            final(self).io.inv(),
            index >= old(self).build_count ==> r == Err::<usize, BuildIOError>(BuildIOError::OutOfRange),
            index < old(self).build_count && old(self).io.infallible() && old(self).io.accepts_write(data@.len() as int)
                && slot_offset(old(self).layout, index as int) <= old(self).io.stream().len() ==> r is Ok,
            r is Ok ==> final(self).io.stream() == splice(old(self).io.staged(), slot_offset(old(self).layout, index as int) as int, old(self).io.write_image(data@)),
            r is Ok && reads_ok(final(self).io) ==> final(self).describes(final(self).io.stream(), final(self).io.collation_spec()),
    {
        if index >= self.build_count {
            return Err(BuildIOError::OutOfRange);
        }
        let offset = if self.layout == BuildMetaLayout::LC2DiskLayout {
            if index == 0 { LC2_BUILD_OFFSET0 } else { LC2_BUILD_OFFSET1 }
        } else if self.layout == BuildMetaLayout::UTVDiskLayout {
            if index == 0 { UTV_BUILD_OFFSET0 } else { UTV_BUILD_OFFSET1 }
        } else if self.layout == BuildMetaLayout::WebstarDiskLayout {
            WEBSTAR_BUILD_OFFSET0
        } else {
            RAW_BUILD_OFFSET0
        };
        let _ = self.io.seek(offset)?;
        let written = self.io.write(data)?;
        proof {
            self.io.lemma_inv();
        }
        self.io.commit()?;
        self.refresh();
        Ok(written)
    }
}

} // verus!
