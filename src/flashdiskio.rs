//! NAND flash dumps with a flash translation layer.
//!
//! A dump holds the user area of every page, then the spare area of every
//! page. The first spare bytes of a page carry its status; the second half of
//! the spare area of the first three pages of a unit carries the unit's
//! control data (virtual unit number, replacing unit, erase mark, fold mark).
//! Reading follows each logical unit's chain of replacing units, the later
//! unit's written pages taking the place of the earlier's. Writes are buffered
//! and `commit` rebuilds the whole dump with a linear translation table.

use vstd::prelude::*;
use crate::buildio::{apply_collation, image_read, splice, BuildIO, BuildIODataCollation, BuildIOError};
use crate::bytes::{copy_range, filled, le_bytes_u16, le_u16_at, read_le_u16};

verus! {

pub const USR_PAGE_SIZE: u64 = 0x200;
pub const SPR_PAGE_SIZE: u64 = 0x10;
pub const PAGES_PER_UNIT: u64 = 0x10;
/// Units at the start of the dump that hold the disk information.
pub const DISKINFO_UNITS: u64 = 2;
/// Bytes of spare area per unit.
pub const UNIT_SPARE_SIZE: u64 = 0x100;
/// Bytes of user area per unit.
pub const UNIT_USER_SIZE: u64 = 0x2000;
/// Bytes of user area before the first usable unit.
pub const USABLE_START: u64 = 0x4000;
/// Bytes of control data read at the start of a unit's spare area.
pub const UNIT_CONTROL_SIZE: u64 = 0x30;

pub const WRITTEN_MARK: i16 = 0x5555;
pub const ERASED_MARK: i16 = 0x3c69;
/// A page that no unit holds.
pub const EMPTY_PAGE: u64 = 0xffffffff;

/// The largest dump handled (128 MiB). Unit numbers and unit counts are
/// stored in signed 16-bit fields; 128 MiB of dump holds fewer than 16384
/// units of 8 KiB, so every number the rebuilt table writes fits. The chips
/// that these dumps come from hold at most 16 MiB.
pub const MAX_DUMP_SIZE: u64 = 0x8000000;

/// `ANAND\0`
pub open spec fn disk_magic() -> Seq<u8> {
    seq![0x41u8, 0x4eu8, 0x41u8, 0x4eu8, 0x44u8, 0x00u8]
}

/// The disk information at the start of a header unit, little-endian.
#[derive(Debug, Clone, Copy)]
pub struct DiskInformation {
    pub magic: [u8; 6],
    pub total_usable_units: i16,
    pub frist_usable_unit: i16,
    pub usable_size: i32,
}

/// The first half of a page's spare area.
#[derive(Debug, Clone, Copy)]
pub struct PageInformation {
    pub usr_ecc_data: [u8; 6],
    pub usr_data_status: i16,
}

/// Control data in the spare area of a unit's first page.
#[derive(Debug, Clone, Copy)]
pub struct UnitOrderInformation {
    pub usr_virtual_unit_number: i16,
    pub usr_replace_unit_number: i16,
    pub spr_virtual_unit_number: i16,
    pub spr_replace_unit_number: i16,
}

/// Control data in the spare area of a unit's second page.
#[derive(Debug, Clone, Copy)]
pub struct UnitEraseInformation {
    pub wear_info: i32,
    pub usr_erase_status: i16,
    pub spr_erase_status: i16,
}

/// Control data in the spare area of a unit's third page.
#[derive(Debug, Clone, Copy)]
pub struct UnitFoldInformation {
    pub usr_fold_status: i16,
    pub spr_fold_status: i16,
    pub unused: i32,
}

#[derive(Debug, Clone, Copy)]
pub struct UnitBlankInformation {
    pub data: [u8; 8],
}

/// The 48 bytes of spare area at the start of a unit.
#[derive(Debug, Clone, Copy)]
pub struct UserControlInformation {
    pub page0_info: PageInformation,
    pub order: UnitOrderInformation,
    pub page1_info: PageInformation,
    pub erase: UnitEraseInformation,
    pub page2_info: PageInformation,
    pub fold: UnitFoldInformation,
}

/// The little-endian 32-bit value of `s[off..off + 4]`.
pub open spec fn le_u32_at(s: Seq<u8>, off: int) -> u32 {
    (le_u16_at(s, off) as int + le_u16_at(s, off + 2) as int * 0x10000) as u32
}

fn read_le_u32(s: &Vec<u8>, off: usize) -> (r: u32)
    requires
        off + 4 <= s@.len(),
    ensures
        r == le_u32_at(s@, off as int),
{
    assert(off + 4 <= s.len());
    let lo = read_le_u16(s, off) as u32;
    let hi = read_le_u16(s, off + 2) as u32;
    lo + hi * 0x10000
}

/// The two little-endian bytes of a signed 16-bit value.
pub open spec fn le_bytes_i16(v: i16) -> Seq<u8> {
    le_bytes_u16(v as u16)
}

/// The four little-endian bytes of a signed 32-bit value.
pub open spec fn le_bytes_i32(v: i32) -> Seq<u8> {
    le_bytes_u16(((v as u32) % 0x10000) as u16) + le_bytes_u16(((v as u32) / 0x10000) as u16)
}

fn push_le_i16(out: &mut Vec<u8>, v: i16)
    ensures
        final(out)@ == old(out)@ + le_bytes_i16(v),
{
    let u = v as u16;
    out.push((u % 0x100) as u8);
    out.push((u / 0x100) as u8);
    assert(final(out)@ =~= old(out)@ + le_bytes_i16(v));
}

fn push_le_i32(out: &mut Vec<u8>, v: i32)
    ensures
        final(out)@ == old(out)@ + le_bytes_i32(v),
{
    let u = v as u32;
    let lo = (u % 0x10000) as u16;
    let hi = (u / 0x10000) as u16;
    out.push((lo % 0x100) as u8);
    out.push((lo / 0x100) as u8);
    out.push((hi % 0x100) as u8);
    out.push((hi / 0x100) as u8);
    assert(final(out)@ =~= old(out)@ + le_bytes_i32(v));
}

impl DiskInformation {
    pub fn to_le_bytes(&self) -> (r: Vec<u8>)
        ensures
            r@ == self.magic@ + le_bytes_i16(self.total_usable_units) + le_bytes_i16(self.frist_usable_unit) + le_bytes_i32(self.usable_size),
    {
        let mut out: Vec<u8> = Vec::new();
        let mut k: usize = 0;
        while k < 6
            invariant
                k <= 6,
                out@ == self.magic@.subrange(0, k as int),
            decreases 6 - k,
        {
            out.push(self.magic[k]);
            k = k + 1;
            assert(out@ =~= self.magic@.subrange(0, k as int));
        }
        assert(self.magic@.subrange(0, 6) =~= self.magic@);
        push_le_i16(&mut out, self.total_usable_units);
        push_le_i16(&mut out, self.frist_usable_unit);
        push_le_i32(&mut out, self.usable_size);
        out
    }
}

impl PageInformation {
    /// Reads the record from the 8 bytes at `off`.
    pub fn from_le_bytes(b: &Vec<u8>, off: usize) -> (r: PageInformation)
        requires
            off + 8 <= b@.len(),
        ensures
            r.usr_ecc_data@ == b@.subrange(off as int, off + 6),
            r.usr_data_status == le_u16_at(b@, off + 6) as i16,
    {
        assert(off + 8 <= b.len());
        let r = PageInformation {
            usr_ecc_data: [b[off], b[off + 1], b[off + 2], b[off + 3], b[off + 4], b[off + 5]],
            usr_data_status: read_le_u16(b, off + 6) as i16,
        };
        assert(r.usr_ecc_data@ =~= b@.subrange(off as int, off + 6));
        r
    }

    pub fn to_le_bytes(&self) -> (r: Vec<u8>)
        ensures
            r@ == self.usr_ecc_data@ + le_bytes_i16(self.usr_data_status),
    {
        let mut out: Vec<u8> = Vec::new();
        let mut k: usize = 0;
        while k < 6
            invariant
                k <= 6,
                out@ == self.usr_ecc_data@.subrange(0, k as int),
            decreases 6 - k,
        {
            out.push(self.usr_ecc_data[k]);
            k = k + 1;
            assert(out@ =~= self.usr_ecc_data@.subrange(0, k as int));
        }
        assert(self.usr_ecc_data@.subrange(0, 6) =~= self.usr_ecc_data@);
        push_le_i16(&mut out, self.usr_data_status);
        out
    }
}

impl UnitOrderInformation {
    /// Reads the record from the 8 bytes at `off`.
    pub fn from_le_bytes(b: &Vec<u8>, off: usize) -> (r: UnitOrderInformation)
        requires
            off + 8 <= b@.len(),
        ensures
            r.usr_virtual_unit_number == le_u16_at(b@, off as int) as i16,
            r.usr_replace_unit_number == le_u16_at(b@, off + 2) as i16,
            r.spr_virtual_unit_number == le_u16_at(b@, off + 4) as i16,
            r.spr_replace_unit_number == le_u16_at(b@, off + 6) as i16,
    {
        assert(off + 8 <= b.len());
        UnitOrderInformation {
            usr_virtual_unit_number: read_le_u16(b, off) as i16,
            usr_replace_unit_number: read_le_u16(b, off + 2) as i16,
            spr_virtual_unit_number: read_le_u16(b, off + 4) as i16,
            spr_replace_unit_number: read_le_u16(b, off + 6) as i16,
        }
    }

    pub fn to_le_bytes(&self) -> (r: Vec<u8>)
        ensures
            r@ == le_bytes_i16(self.usr_virtual_unit_number) + le_bytes_i16(self.usr_replace_unit_number)
                + le_bytes_i16(self.spr_virtual_unit_number) + le_bytes_i16(self.spr_replace_unit_number),
    {
        let mut out: Vec<u8> = Vec::new();
        push_le_i16(&mut out, self.usr_virtual_unit_number);
        push_le_i16(&mut out, self.usr_replace_unit_number);
        push_le_i16(&mut out, self.spr_virtual_unit_number);
        push_le_i16(&mut out, self.spr_replace_unit_number);
        assert(out@ =~= le_bytes_i16(self.usr_virtual_unit_number) + le_bytes_i16(self.usr_replace_unit_number)
            + le_bytes_i16(self.spr_virtual_unit_number) + le_bytes_i16(self.spr_replace_unit_number));
        out
    }
}

impl UnitEraseInformation {
    /// Reads the record from the 8 bytes at `off`.
    pub fn from_le_bytes(b: &Vec<u8>, off: usize) -> (r: UnitEraseInformation)
        requires
            off + 8 <= b@.len(),
        ensures
            r.wear_info == le_u32_at(b@, off as int) as i32,
            r.usr_erase_status == le_u16_at(b@, off + 4) as i16,
            r.spr_erase_status == le_u16_at(b@, off + 6) as i16,
    {
        assert(off + 8 <= b.len());
        UnitEraseInformation {
            wear_info: read_le_u32(b, off) as i32,
            usr_erase_status: read_le_u16(b, off + 4) as i16,
            spr_erase_status: read_le_u16(b, off + 6) as i16,
        }
    }

    pub fn to_le_bytes(&self) -> (r: Vec<u8>)
        ensures
            r@ == le_bytes_i32(self.wear_info) + le_bytes_i16(self.usr_erase_status) + le_bytes_i16(self.spr_erase_status),
    {
        let mut out: Vec<u8> = Vec::new();
        push_le_i32(&mut out, self.wear_info);
        push_le_i16(&mut out, self.usr_erase_status);
        push_le_i16(&mut out, self.spr_erase_status);
        assert(out@ =~= le_bytes_i32(self.wear_info) + le_bytes_i16(self.usr_erase_status) + le_bytes_i16(self.spr_erase_status));
        out
    }
}

impl UnitFoldInformation {
    /// Reads the record from the 8 bytes at `off`.
    pub fn from_le_bytes(b: &Vec<u8>, off: usize) -> (r: UnitFoldInformation)
        requires
            off + 8 <= b@.len(),
        ensures
            r.usr_fold_status == le_u16_at(b@, off as int) as i16,
            r.spr_fold_status == le_u16_at(b@, off + 2) as i16,
            r.unused == le_u32_at(b@, off + 4) as i32,
    {
        assert(off + 8 <= b.len());
        UnitFoldInformation {
            usr_fold_status: read_le_u16(b, off) as i16,
            spr_fold_status: read_le_u16(b, off + 2) as i16,
            unused: read_le_u32(b, off + 4) as i32,
        }
    }
}

impl UserControlInformation {
    /// Reads the control data of a unit from the 48 spare bytes at `off`.
    pub fn from_le_bytes(b: &Vec<u8>, off: usize) -> (r: UserControlInformation)
        requires
            off + 48 <= b@.len(),
        ensures
            r.order.usr_virtual_unit_number == le_u16_at(b@, off + 8) as i16,
            r.order.usr_replace_unit_number == le_u16_at(b@, off + 10) as i16,
            r.erase.usr_erase_status == le_u16_at(b@, off + 28) as i16,
            r.page0_info.usr_data_status == le_u16_at(b@, off + 6) as i16,
            r.fold.usr_fold_status == le_u16_at(b@, off + 40) as i16,
    {
        assert(off + 48 <= b.len());
        UserControlInformation {
            page0_info: PageInformation::from_le_bytes(b, off),
            order: UnitOrderInformation::from_le_bytes(b, off + 8),
            page1_info: PageInformation::from_le_bytes(b, off + 16),
            erase: UnitEraseInformation::from_le_bytes(b, off + 24),
            page2_info: PageInformation::from_le_bytes(b, off + 32),
            fold: UnitFoldInformation::from_le_bytes(b, off + 40),
        }
    }
}

/// A buffered write: `size` bytes of `data` from `page_offset` in virtual page
/// `page_index`.
pub struct PageWriteInfo {
    pub page_index: usize,
    pub page_offset: usize,
    pub size: usize,
    pub data: Vec<u8>,
}

/// User-area size of a dump of `file_size` bytes: 512 user bytes for every
/// 528 bytes of page.
pub open spec fn usr_size_of(file_size: int) -> int {
    (file_size / 33) * 32 + ((file_size % 33) * 32) / 33
}

/// The spare-area byte at offset `k` of the unit control or page data.
pub open spec fn spare_u16(img: Seq<u8>, off: int) -> u16 {
    le_u16_at(img, off)
}

pub open spec fn unit_base(usr: int, phys: int) -> int {
    usr + phys * UNIT_SPARE_SIZE
}

pub open spec fn control_readable(img: Seq<u8>, usr: int, phys: int) -> bool {
    unit_base(usr, phys) + UNIT_CONTROL_SIZE <= img.len()
}

pub open spec fn virtual_unit(img: Seq<u8>, usr: int, phys: int) -> i16 {
    spare_u16(img, unit_base(usr, phys) + 8) as i16
}

pub open spec fn replace_unit(img: Seq<u8>, usr: int, phys: int) -> i16 {
    spare_u16(img, unit_base(usr, phys) + 10) as i16
}

pub open spec fn erase_status(img: Seq<u8>, usr: int, phys: int) -> i16 {
    spare_u16(img, unit_base(usr, phys) + 28) as i16
}

/// Page `q` of unit `phys` is marked written.
pub open spec fn page_marked(img: Seq<u8>, usr: int, phys: int, q: int) -> bool {
    &&& unit_base(usr, phys) + q * SPR_PAGE_SIZE + 8 <= img.len()
    &&& spare_u16(img, unit_base(usr, phys) + q * SPR_PAGE_SIZE + 6) as i16 == WRITTEN_MARK
}

/// The page map after the first `p` pages of unit `phys`, which holds virtual
/// unit `vu`, took their places.
pub open spec fn mark_pages(map: Seq<u64>, img: Seq<u8>, usr: int, phys: int, vu: int, p: nat) -> Seq<u64>
    decreases p,
{
    if p == 0 {
        map
    } else {
        let m = mark_pages(map, img, usr, phys, vu, (p - 1) as nat);
        let q = p - 1;
        let vp = vu * PAGES_PER_UNIT + q;
        if page_marked(img, usr, phys, q) && 0 <= vp < m.len() {
            m.update(vp, ((phys * PAGES_PER_UNIT + q) * USR_PAGE_SIZE) as u64)
        } else {
            m
        }
    }
}

/// Whether unit `phys` holds a live virtual unit.
pub open spec fn unit_live(img: Seq<u8>, usr: int, phys: int) -> bool {
    control_readable(img, usr, phys) && erase_status(img, usr, phys) == ERASED_MARK && virtual_unit(img, usr, phys) >= 0
}

/// The page map after following the replace chain from unit `phys` for at
/// most `steps` units.
pub open spec fn follow_chain(map: Seq<u64>, img: Seq<u8>, usr: int, units: int, phys: int, steps: nat) -> Seq<u64>
    decreases steps,
{
    if steps == 0 || !unit_live(img, usr, phys) {
        map
    } else {
        let m = mark_pages(map, img, usr, phys, virtual_unit(img, usr, phys) as int, PAGES_PER_UNIT as nat);
        let r = replace_unit(img, usr, phys) as int;
        if 0 <= r < units {
            follow_chain(m, img, usr, units, r, (steps - 1) as nat)
        } else {
            m
        }
    }
}

/// The page map of a dump after the chains of the first `l` logical units.
pub open spec fn enumerate(img: Seq<u8>, usr: int, units: int, n_pages: nat, l: nat) -> Seq<u64>
    decreases l,
{
    if l == 0 {
        Seq::new(n_pages, |i: int| EMPTY_PAGE)
    } else {
        follow_chain(enumerate(img, usr, units, n_pages, (l - 1) as nat), img, usr, units, l - 1, units as nat)
    }
}

/// The 512 bytes of a mapped page: erased where no unit holds it.
pub open spec fn page_bytes(img: Seq<u8>, off: u64) -> Seq<u8> {
    if off == EMPTY_PAGE || off + USR_PAGE_SIZE > img.len() {
        Seq::new(USR_PAGE_SIZE as nat, |i: int| 0xffu8)
    } else {
        img.subrange(off as int, off + USR_PAGE_SIZE)
    }
}

/// The logical stream of the virtual pages of `map`.
pub open spec fn flash_stream(img: Seq<u8>, map: Seq<u64>) -> Seq<u8> {
    Seq::new(map.len() * USR_PAGE_SIZE as nat, |i: int| page_bytes(img, map[i / USR_PAGE_SIZE as int])[i % USR_PAGE_SIZE as int])
}

/// The stream with the buffered writes applied in order.
pub open spec fn apply_writes(base: Seq<u8>, writes: Seq<PageWriteInfo>) -> Seq<u8>
    decreases writes.len(),
{
    if writes.len() == 0 {
        base
    } else {
        let w = writes.last();
        splice(apply_writes(base, writes.drop_last()), w.page_index * USR_PAGE_SIZE + w.page_offset, w.data@)
    }
}

/// Page `q` of a user area holds a byte other than 0xff.
pub open spec fn page_written(usr_data: Seq<u8>, q: int) -> bool {
    exists|i: int| 0 <= i < USR_PAGE_SIZE && #[trigger] usr_data[q * USR_PAGE_SIZE + i] != 0xff
}

/// Some page of unit `u` of a user area is written.
pub open spec fn unit_written(usr_data: Seq<u8>, u: int) -> bool {
    exists|p: int| 0 <= p < PAGES_PER_UNIT && #[trigger] page_written(usr_data, u * PAGES_PER_UNIT + p)
}

pub open spec fn erased8() -> Seq<u8> {
    Seq::new(8, |i: int| 0xffu8)
}

/// The page information of a written page: no ECC, the written mark.
pub open spec fn written_page_info() -> Seq<u8> {
    seq![0u8, 0u8, 0u8, 0u8, 0u8, 0u8, 0x55u8, 0x55u8]
}

/// Unit order data naming virtual unit `v` with no replacing unit.
pub open spec fn unit_order_bytes(v: u16) -> Seq<u8> {
    seq![(v % 0x100) as u8, (v / 0x100) as u8, 0xffu8, 0xffu8, (v % 0x100) as u8, (v / 0x100) as u8, 0xffu8, 0xffu8]
}

/// Erase data of a unit erased once.
pub open spec fn unit_erase_bytes() -> Seq<u8> {
    seq![1u8, 0u8, 0u8, 0u8, 0x69u8, 0x3cu8, 0x69u8, 0x3cu8]
}

/// The 16 spare bytes of page `q` in a rebuilt dump with `units` whole units.
pub open spec fn page_spare(usr_data: Seq<u8>, q: int, units: int) -> Seq<u8> {
    let info = if page_written(usr_data, q) { written_page_info() } else { erased8() };
    let u = q / PAGES_PER_UNIT as int;
    let ctrl = if u < units && q % PAGES_PER_UNIT as int == 0 && u >= DISKINFO_UNITS && unit_written(usr_data, u) {
        unit_order_bytes((u - DISKINFO_UNITS) as u16)
    } else if u < units && q % PAGES_PER_UNIT as int == 1 {
        unit_erase_bytes()
    } else {
        erased8()
    };
    info + ctrl
}

/// The spare area of a rebuilt dump: one entry per page of `usr_data`, the rest erased.
pub open spec fn spare_table(usr_data: Seq<u8>, spr_size: nat) -> Seq<u8> {
    let pages = usr_data.len() as int / USR_PAGE_SIZE as int;
    let units = pages / PAGES_PER_UNIT as int;
    Seq::new(spr_size, |k: int| if k < pages * SPR_PAGE_SIZE { page_spare(usr_data, k / SPR_PAGE_SIZE as int, units)[k % SPR_PAGE_SIZE as int] } else { 0xffu8 })
}

/// The disk information record of a user area of `usr` bytes.
pub open spec fn disk_info_bytes(usr: int) -> Seq<u8> {
    disk_magic() + le_bytes_i16((usr / UNIT_USER_SIZE as int) as i16) + le_bytes_i16(0) + le_bytes_i32((usr - USABLE_START) as i32)
}

/// The user area of a rebuilt dump: the disk information at the start of both
/// header units, then the logical content.
pub open spec fn rebuilt_user_area(content: Seq<u8>, usr: int) -> Seq<u8> {
    Seq::new(usr as nat, |i: int|
        if i < 14 { disk_info_bytes(usr)[i] }
        else if UNIT_USER_SIZE <= i < UNIT_USER_SIZE + 14 { disk_info_bytes(usr)[i - UNIT_USER_SIZE] }
        else if USABLE_START <= i < USABLE_START + content.len() { content[i - USABLE_START] }
        else { 0xffu8 })
}

/// The page map of a rebuilt dump: every written virtual page at its linear place.
pub open spec fn linear_map(content: Seq<u8>) -> Seq<u64> {
    Seq::new((content.len() as int / USR_PAGE_SIZE as int) as nat, |v: int|
        if page_written(content, v) { ((v + 2 * PAGES_PER_UNIT) * USR_PAGE_SIZE) as u64 } else { EMPTY_PAGE })
}

proof fn lemma_mark_pages_len(map: Seq<u64>, img: Seq<u8>, usr: int, phys: int, vu: int, p: nat)
    ensures
        mark_pages(map, img, usr, phys, vu, p).len() == map.len(),
    decreases p,
{
    if p > 0 {
        lemma_mark_pages_len(map, img, usr, phys, vu, (p - 1) as nat);
    }
}

proof fn lemma_follow_chain_len(map: Seq<u64>, img: Seq<u8>, usr: int, units: int, phys: int, steps: nat)
    ensures
        follow_chain(map, img, usr, units, phys, steps).len() == map.len(),
    decreases steps,
{
    if steps > 0 && unit_live(img, usr, phys) {
        let m = mark_pages(map, img, usr, phys, virtual_unit(img, usr, phys) as int, PAGES_PER_UNIT as nat);
        lemma_mark_pages_len(map, img, usr, phys, virtual_unit(img, usr, phys) as int, PAGES_PER_UNIT as nat);
        let r = replace_unit(img, usr, phys) as int;
        if 0 <= r < units {
            lemma_follow_chain_len(m, img, usr, units, r, (steps - 1) as nat);
        }
    }
}

proof fn lemma_enumerate_len(img: Seq<u8>, usr: int, units: int, n_pages: nat, l: nat)
    ensures
        enumerate(img, usr, units, n_pages, l).len() == n_pages,
    decreases l,
{
    if l > 0 {
        lemma_enumerate_len(img, usr, units, n_pages, (l - 1) as nat);
        lemma_follow_chain_len(enumerate(img, usr, units, n_pages, (l - 1) as nat), img, usr, units, l - 1, units as nat);
    }
}

/// A dump that `FlashdiskIO::open` takes: room for the header units, a spare
/// area for every page, and no more than `MAX_DUMP_SIZE` bytes.
pub open spec fn dump_fits(file_size: int) -> bool {
    let usr = usr_size_of(file_size);
    &&& usr >= USABLE_START
    &&& file_size <= MAX_DUMP_SIZE
    &&& (usr / USR_PAGE_SIZE as int) * SPR_PAGE_SIZE <= file_size - usr
}

/// The flashdisk size of a chip that the emulator names, if it is one of the
/// supported chips.
pub open spec fn chip_size_of(name: Seq<char>) -> Option<nat> {
    if name == "mdoc_2810_0016"@ {
        Some(16 * 1024 * 1024)
    } else if name == "mdoc_2810_0008"@ {
        Some(8 * 1024 * 1024)
    } else if name == "mdoc_2810_0004"@ {
        Some(4 * 1024 * 1024)
    } else if name == "mdoc_2810_0002"@ {
        Some(2 * 1024 * 1024)
    } else {
        None
    }
}

/// The flashdisk size of the first supported chip among `names`; 8 MiB
/// where there is none.
pub open spec fn flashdisk_size_of(names: Seq<Seq<char>>) -> nat
    decreases names.len(),
{
    if names.len() == 0 {
        8 * 1024 * 1024
    } else {
        match chip_size_of(names[0]) {
            Some(size) => size,
            None => flashdisk_size_of(names.drop_first()),
        }
    }
}

/// The flashdisk size of a machine whose devices are named `device_names`.
pub fn get_flashdisk_size(device_names: &Vec<String>) -> (r: usize)
    ensures
        r == flashdisk_size_of(device_names@.map_values(|n: String| n@)),
{
    let ghost names = device_names@.map_values(|n: String| n@);
    let chips = [
        String::from_str("mdoc_2810_0016"),
        String::from_str("mdoc_2810_0008"),
        String::from_str("mdoc_2810_0004"),
        String::from_str("mdoc_2810_0002"),
    ];
    assert(names.subrange(0, names.len() as int) =~= names);
    let mut i: usize = 0;
    while i < device_names.len()
        invariant
            i <= device_names@.len(),
            names == device_names@.map_values(|n: String| n@),
            names.len() == device_names@.len(),
            chips[0]@ == "mdoc_2810_0016"@,
            chips[1]@ == "mdoc_2810_0008"@,
            chips[2]@ == "mdoc_2810_0004"@,
            chips[3]@ == "mdoc_2810_0002"@,
            flashdisk_size_of(names) == flashdisk_size_of(names.subrange(i as int, names.len() as int)),
        decreases device_names@.len() - i,
    {
        let name = &device_names[i];
        let ghost rest = names.subrange(i as int, names.len() as int);
        assert(rest[0] == name@);
        assert(rest.drop_first() =~= names.subrange(i + 1, names.len() as int));
        let mut k: usize = 0;
        while k < 4
            invariant
                k <= 4,
                chips[0]@ == "mdoc_2810_0016"@,
                chips[1]@ == "mdoc_2810_0008"@,
                chips[2]@ == "mdoc_2810_0004"@,
                chips[3]@ == "mdoc_2810_0002"@,
                    forall|m: int| 0 <= m < k ==> name@ != (#[trigger] chips@[m])@,
                rest.len() > 0,
                rest[0] == name@,
                rest.drop_first() == names.subrange(i + 1, names.len() as int),
                flashdisk_size_of(names) == flashdisk_size_of(rest),
                names == device_names@.map_values(|n: String| n@),
            decreases 4 - k,
        {
            if *name == chips[k] {
                proof {
                    if k == 1 {
                        reveal_strlit("mdoc_2810_0016");
                        reveal_strlit("mdoc_2810_0008");
                        assert(chips[0]@ != chips[1]@) by {
                            assert(chips[0]@[13] != chips[1]@[13]);
                        }
                    } else if k == 2 {
                        reveal_strlit("mdoc_2810_0016");
                        reveal_strlit("mdoc_2810_0008");
                        reveal_strlit("mdoc_2810_0004");
                        assert(chips[2]@[12] != chips[0]@[12] && chips[2]@[13] != chips[1]@[13]);
                    } else if k == 3 {
                        reveal_strlit("mdoc_2810_0016");
                        reveal_strlit("mdoc_2810_0008");
                        reveal_strlit("mdoc_2810_0004");
                        reveal_strlit("mdoc_2810_0002");
                        assert(chips[3]@[12] != chips[0]@[12] && chips[3]@[13] != chips[1]@[13] && chips[3]@[13] != chips[2]@[13]);
                    }
                }
                let size: usize = match k {
                    0 => 16 * 1024 * 1024,
                    1 => 8 * 1024 * 1024,
                    2 => 4 * 1024 * 1024,
                    _ => 2 * 1024 * 1024,
                };
                assert(chip_size_of(name@) == Some(size as nat));
                assert(flashdisk_size_of(rest) == size);
                return size;
            }
            k = k + 1;
        }
        i = i + 1;
    }
    8 * 1024 * 1024
}

/// The stream keeps its length under the buffered writes.
proof fn lemma_apply_writes_len(base: Seq<u8>, writes: Seq<PageWriteInfo>)
    requires
        forall|i: int| 0 <= i < writes.len() ==> (#[trigger] writes[i]).page_index * USR_PAGE_SIZE + writes[i].page_offset <= base.len(),
    ensures
        apply_writes(base, writes).len() == base.len(),
    decreases writes.len(),
{
    if writes.len() > 0 {
        let rest = writes.drop_last();
        assert forall|i: int| 0 <= i < rest.len() implies (#[trigger] rest[i]).page_index * USR_PAGE_SIZE + rest[i].page_offset <= base.len() by {
            assert(rest[i] == writes[i]);
        }
        lemma_apply_writes_len(base, rest);
    }
}

/// A flash dump held in memory, with its page map and buffered writes.
pub struct FlashdiskIO {
    file_path: String,
    collation: BuildIODataCollation,
    size: u64,
    image: Vec<u8>,
    total_usr_size: u64,
    total_spr_size: u64,
    total_units: u64,
    usr_page_offsets: Vec<u64>,
    current_position: usize,
    pending_page_writes: Vec<PageWriteInfo>,
}

impl FlashdiskIO {
    /// The dump as it would be stored now.
    pub closed spec fn image_spec(&self) -> Seq<u8> {
        self.image@
    }

    /// The page map.
    pub closed spec fn page_map(&self) -> Seq<u64> {
        self.usr_page_offsets@
    }

    pub closed spec fn usr_size(&self) -> int {
        self.total_usr_size as int
    }

    pub closed spec fn spr_size(&self) -> int {
        self.total_spr_size as int
    }

    pub closed spec fn pending_writes(&self) -> Seq<PageWriteInfo> {
        self.pending_page_writes@
    }

    /// `self` is `prev` with user and spare areas of `usr` and `spr` bytes
    /// and an empty page map.
    pub closed spec fn reconfigured(&self, prev: FlashdiskIO, usr: u64, spr: u64) -> bool {
        &&& self.total_usr_size == usr
        &&& self.total_spr_size == spr
        &&& self.total_units == usr / USR_PAGE_SIZE / PAGES_PER_UNIT
        &&& self.usr_page_offsets@ == Seq::new((usr / USR_PAGE_SIZE - 2 * PAGES_PER_UNIT) as nat, |i: int| EMPTY_PAGE)
        &&& self.image == prev.image
        &&& self.file_path == prev.file_path
        &&& self.collation == prev.collation
        &&& self.size == prev.size
        &&& self.current_position == 0
        &&& self.pending_page_writes@.len() == 0
    }

    /// Opens a dump: sizes the user and spare areas from the dump's size and
    /// builds the page map by following every unit chain.
    pub fn open(file_path: String, collation: Option<BuildIODataCollation>, image: Vec<u8>) -> (r: Result<FlashdiskIO, BuildIOError>)
        ensures
            !dump_fits(image@.len() as int) ==> r == Err::<FlashdiskIO, BuildIOError>(BuildIOError::Format),
            dump_fits(image@.len() as int) ==> r is Ok,
            r is Ok ==> ({
                let io = r->Ok_0;
                let usr = usr_size_of(image@.len() as int);
                let pages = usr / USR_PAGE_SIZE as int;
                &&& io.inv() && io.infallible() && io.position() == 0 && io.path_spec() == file_path@
                &&& io.collation_spec() == (match collation { Some(c) => c, None => BuildIODataCollation::Raw })
                &&& io.image_spec() == image@
                &&& io.usr_size() == usr
                &&& io.spr_size() == image@.len() - usr
                &&& io.pending_writes().len() == 0
                &&& io.page_map() == enumerate(image@, usr, pages / PAGES_PER_UNIT as int, (pages - 2 * PAGES_PER_UNIT) as nat, (pages / PAGES_PER_UNIT as int) as nat)
                &&& io.stream() == flash_stream(image@, io.page_map())
            }),
    {
        let c = match collation {
            Some(c) => c,
            None => BuildIODataCollation::Raw,
        };
        let file_size = image.len();
        let total_usr = (file_size / 33) * 32 + ((file_size % 33) * 32) / 33;
        assert((total_usr / 512) * 16 <= total_usr) by (nonlinear_arith)
            requires total_usr >= 0;
        if total_usr < USABLE_START as usize || file_size > MAX_DUMP_SIZE as usize
            || (total_usr / (USR_PAGE_SIZE as usize)) * (SPR_PAGE_SIZE as usize) > file_size - total_usr {
            return Err(BuildIOError::Format);
        }
        let mut io = FlashdiskIO {
            file_path,
            collation: c,
            size: file_size as u64,
            image,
            total_usr_size: 0,
            total_spr_size: 0,
            total_units: 0,
            usr_page_offsets: Vec::new(),
            current_position: 0,
            pending_page_writes: Vec::new(),
        };
        io.set_mdoc_config(total_usr as u64, (file_size - total_usr) as u64);
        io.enumerate_pages();
        proof {
            lemma_enumerate_len(io.image@, io.total_usr_size as int, io.total_units as int,
                (io.total_usr_size / USR_PAGE_SIZE - 2 * PAGES_PER_UNIT) as nat, io.total_units as nat);
        }
        Ok(io)
    }

    /// Sets the sizes of the user and spare areas and empties the page map.
    pub fn set_mdoc_config(&mut self, total_usr_size: u64, total_spr_size: u64)
        requires
            total_usr_size >= USABLE_START,
            total_usr_size + total_spr_size == old(self).image_spec().len(),
        ensures
            final(self).reconfigured(*old(self), total_usr_size, total_spr_size),
    {
        let file_len = self.image.len();
        self.total_usr_size = total_usr_size;
        self.total_spr_size = total_spr_size;
        let total_pages = total_usr_size / USR_PAGE_SIZE;
        self.total_units = total_pages / PAGES_PER_UNIT;
        assert(total_pages <= self.image@.len());
        let n = (total_pages - 2 * PAGES_PER_UNIT) as usize;
        let mut offsets: Vec<u64> = Vec::new();
        let mut i: usize = 0;
        while i < n
            invariant
                i <= n,
                offsets@ == Seq::new(i as nat, |j: int| EMPTY_PAGE),
            decreases n - i,
        {
            offsets.push(EMPTY_PAGE);
            i = i + 1;
            assert(offsets@ =~= Seq::new(i as nat, |j: int| EMPTY_PAGE));
        }
        self.usr_page_offsets = offsets;
        self.current_position = 0;
        self.pending_page_writes = Vec::new();
    }

    /// Reads the erase mark, virtual unit and replacing unit of unit `phys`,
    /// where its control data lies in the dump.
    fn unit_control(&self, phys: usize) -> (r: Option<(i16, i16, i16)>)
        requires
            self.image@.len() <= MAX_DUMP_SIZE,
            self.total_usr_size + self.total_spr_size == self.image@.len(),
            self.image@.len() <= usize::MAX,
            phys <= self.image@.len(),
        ensures
            r is Some <==> control_readable(self.image@, self.total_usr_size as int, phys as int),
            r is Some ==> r->Some_0.0 == erase_status(self.image@, self.total_usr_size as int, phys as int)
                && r->Some_0.1 == virtual_unit(self.image@, self.total_usr_size as int, phys as int)
                && r->Some_0.2 == replace_unit(self.image@, self.total_usr_size as int, phys as int),
    {
        let usr = self.total_usr_size as usize;
        let len = self.image.len();
        if phys > (len - usr) / (UNIT_SPARE_SIZE as usize) {
            assert(phys * UNIT_SPARE_SIZE > len - usr) by (nonlinear_arith)
                requires phys > (len - usr) / 256;
            return None;
        }
        assert(phys * UNIT_SPARE_SIZE <= len - usr) by (nonlinear_arith)
            requires phys <= (len - usr) / 256;
        let base = usr + phys * (UNIT_SPARE_SIZE as usize);
        if base > len || len - base < UNIT_CONTROL_SIZE as usize {
            return None;
        }
        let uci = UserControlInformation::from_le_bytes(&self.image, base);
        Some((uci.erase.usr_erase_status, uci.order.usr_virtual_unit_number, uci.order.usr_replace_unit_number))
    }

    /// Whether page `q` of unit `phys` is marked written.
    fn page_marked(&self, phys: usize, q: usize) -> (r: bool)
        requires
            self.image@.len() <= MAX_DUMP_SIZE,
            self.total_usr_size + self.total_spr_size == self.image@.len(),
            self.image@.len() <= usize::MAX,
            control_readable(self.image@, self.total_usr_size as int, phys as int),
            q < PAGES_PER_UNIT,
        ensures
            r == page_marked(self.image@, self.total_usr_size as int, phys as int, q as int),
    {
        let len = self.image.len();
        let usr = self.total_usr_size as usize;
        assert(usr + phys * 256 + 48 <= len);
        assert(q * 16 <= 240) by (nonlinear_arith)
            requires q < 16;
        let base = usr + phys * 256 + q * 16;
        if base + 8 > len {
            return false;
        }
        PageInformation::from_le_bytes(&self.image, base).usr_data_status == WRITTEN_MARK
    }

    /// Builds the page map: for every logical unit, follows its chain of
    /// replacing units while they carry the erase mark and a virtual unit
    /// number, each written page taking its virtual page's place, so that the
    /// last unit of a chain wins.
    fn enumerate_pages(&mut self)
        requires
            old(self).total_usr_size + old(self).total_spr_size == old(self).image@.len(),
            old(self).image@.len() <= usize::MAX,
            old(self).image@.len() <= MAX_DUMP_SIZE,
            old(self).total_usr_size >= USABLE_START,
            old(self).total_units == old(self).total_usr_size / USR_PAGE_SIZE / PAGES_PER_UNIT,
            old(self).usr_page_offsets@ == Seq::new((old(self).total_usr_size / USR_PAGE_SIZE - 2 * PAGES_PER_UNIT) as nat, |i: int| EMPTY_PAGE),
        ensures
            final(self).usr_page_offsets@ == enumerate(old(self).image@, old(self).total_usr_size as int, old(self).total_units as int,
                (old(self).total_usr_size / USR_PAGE_SIZE - 2 * PAGES_PER_UNIT) as nat, old(self).total_units as nat),
            final(self).image == old(self).image,
            final(self).file_path == old(self).file_path,
            final(self).collation == old(self).collation,
            final(self).size == old(self).size,
            final(self).total_usr_size == old(self).total_usr_size,
            final(self).total_spr_size == old(self).total_spr_size,
            final(self).total_units == old(self).total_units,
            final(self).current_position == old(self).current_position,
            final(self).pending_page_writes == old(self).pending_page_writes,
    {
        let ghost img = self.image@;
        let ghost usr = self.total_usr_size as int;
        let ghost n_pages = (self.total_usr_size / USR_PAGE_SIZE - 2 * PAGES_PER_UNIT) as nat;
        let units = self.total_units as usize;
        assert(units <= img.len());
        assert(units * 8192 <= usr) by (nonlinear_arith)
            requires units == usr / 512 / 16, usr >= 0;
        let mut logical_unit_index: usize = 0;
        while logical_unit_index < units
            invariant
                logical_unit_index <= units,
                units == self.total_units,
                img == self.image@,
                usr == self.total_usr_size,
                self.total_usr_size + self.total_spr_size == img.len(),
                img.len() <= usize::MAX,
                img.len() <= MAX_DUMP_SIZE,
                units <= img.len(),
                self.total_usr_size == old(self).total_usr_size,
                self.total_spr_size == old(self).total_spr_size,
                self.total_units == old(self).total_units,
                self.image == old(self).image,
                self.file_path == old(self).file_path,
                self.collation == old(self).collation,
                self.size == old(self).size,
                self.current_position == old(self).current_position,
                self.pending_page_writes == old(self).pending_page_writes,
                n_pages == (old(self).total_usr_size / USR_PAGE_SIZE - 2 * PAGES_PER_UNIT) as nat,
                units * 8192 <= usr,
                self.usr_page_offsets@ == enumerate(img, usr, units as int, n_pages, logical_unit_index as nat),
            decreases units - logical_unit_index,
        {
            proof {
                lemma_enumerate_len(img, usr, units as int, n_pages, logical_unit_index as nat);
                lemma_enumerate_len(img, usr, units as int, n_pages, (logical_unit_index + 1) as nat);
            }
            let ghost target = follow_chain(self.usr_page_offsets@, img, usr, units as int, logical_unit_index as int, units as nat);
            let mut physical_unit_index: usize = logical_unit_index;
            let mut chain_index: usize = 0;
            let mut done = false;
            while chain_index < units && !done
                invariant
                    chain_index <= units,
                    physical_unit_index < units,
                    units == self.total_units,
                    units <= img.len(),
                    units * 8192 <= usr,
                    img == self.image@,
                    usr == self.total_usr_size,
                    self.total_usr_size + self.total_spr_size == img.len(),
                    img.len() <= usize::MAX,
                    img.len() <= MAX_DUMP_SIZE,
                    self.total_usr_size == old(self).total_usr_size,
                    self.total_spr_size == old(self).total_spr_size,
                    self.total_units == old(self).total_units,
                    self.image == old(self).image,
                    self.file_path == old(self).file_path,
                    self.collation == old(self).collation,
                    self.size == old(self).size,
                    self.current_position == old(self).current_position,
                    self.pending_page_writes == old(self).pending_page_writes,
                    self.usr_page_offsets@.len() == n_pages,
                    target == if done {
                        self.usr_page_offsets@
                    } else {
                        follow_chain(self.usr_page_offsets@, img, usr, units as int, physical_unit_index as int, (units - chain_index) as nat)
                    },
                decreases units - chain_index,
            {
                match self.unit_control(physical_unit_index) {
                    Some((erase, virt, replace)) => {
                        if erase == ERASED_MARK && virt >= 0 {
                            let vu = virt as usize;
                            let ghost m0 = self.usr_page_offsets@;
                            let mut page_index: usize = 0;
                            while page_index < PAGES_PER_UNIT as usize
                                invariant
                                    page_index <= PAGES_PER_UNIT,
                                    physical_unit_index < units,
                                    units <= img.len(),
                                    vu == virtual_unit(img, usr, physical_unit_index as int),
                                    vu < 0x8000,
                                    img == self.image@,
                                    usr == self.total_usr_size,
                                    units == self.total_units,
                                    self.total_units == old(self).total_units,
                                    self.total_usr_size + self.total_spr_size == img.len(),
                                    img.len() <= usize::MAX,
                                    img.len() <= MAX_DUMP_SIZE,
                                    control_readable(img, usr, physical_unit_index as int),
                                    self.total_usr_size == old(self).total_usr_size,
                                    self.total_spr_size == old(self).total_spr_size,
                                    self.image == old(self).image,
                                    self.file_path == old(self).file_path,
                                    self.collation == old(self).collation,
                                    self.size == old(self).size,
                                    self.current_position == old(self).current_position,
                                    self.pending_page_writes == old(self).pending_page_writes,
                                    self.usr_page_offsets@ == mark_pages(m0, img, usr, physical_unit_index as int, vu as int, page_index as nat),
                                    m0.len() == n_pages,
                                    units * 8192 <= usr,
                                    self.usr_page_offsets@.len() == n_pages,
                                decreases PAGES_PER_UNIT - page_index,
                            {
                                if self.page_marked(physical_unit_index, page_index) {
                                    let virtual_page_index = vu * (PAGES_PER_UNIT as usize) + page_index;
                                    if virtual_page_index < self.usr_page_offsets.len() {
                                        assert((physical_unit_index * PAGES_PER_UNIT + page_index) * USR_PAGE_SIZE <= usr) by (nonlinear_arith)
                                            requires physical_unit_index < units, units * 8192 <= usr, page_index < 16;
                                        assert(usr <= usize::MAX);
                                        let usr_page_offset = ((physical_unit_index as u64) * PAGES_PER_UNIT + page_index as u64) * USR_PAGE_SIZE;
                                        self.usr_page_offsets.set(virtual_page_index, usr_page_offset);
                                    }
                                }
                                page_index = page_index + 1;
                                proof {
                                    lemma_mark_pages_len(m0, img, usr, physical_unit_index as int, vu as int, page_index as nat);
                                }
                            }
                            if 0 <= replace && (replace as usize) < units {
                                physical_unit_index = replace as usize;
                            } else {
                                done = true;
                            }
                        } else {
                            done = true;
                        }
                    },
                    None => {
                        done = true;
                    },
                }
                chain_index = chain_index + 1;
            }
            logical_unit_index = logical_unit_index + 1;
        }
    }

    /// A new erased dump with `size` bytes of user area and the matching spare area.
    pub fn create(file_path: String, collation: Option<BuildIODataCollation>, size: u64) -> (r: Result<FlashdiskIO, BuildIOError>)
        ensures
            USABLE_START <= size <= MAX_DUMP_SIZE / 33 * 32 ==> r is Ok,
            size < USABLE_START || size > MAX_DUMP_SIZE / 33 * 32 ==> r == Err::<FlashdiskIO, BuildIOError>(BuildIOError::OutOfRange),
            r is Ok ==> ({
                let io = r->Ok_0;
                &&& io.inv() && io.infallible() && io.position() == 0 && io.path_spec() == file_path@
                &&& io.collation_spec() == (match collation { Some(c) => c, None => BuildIODataCollation::Raw })
                &&& io.usr_size() == size
                &&& io.spr_size() == (size / USR_PAGE_SIZE) * SPR_PAGE_SIZE
                &&& io.image_spec() == Seq::new((size + (size / USR_PAGE_SIZE) * SPR_PAGE_SIZE) as nat, |i: int| 0xffu8)
                &&& io.stream() == Seq::new(((size / USR_PAGE_SIZE - 2 * PAGES_PER_UNIT) * USR_PAGE_SIZE) as nat, |i: int| 0xffu8)
            }),
    {
        let c = match collation {
            Some(c) => c,
            None => BuildIODataCollation::Raw,
        };
        // the user area and its spare area together stay within a dump
        if size < USABLE_START || size > MAX_DUMP_SIZE / 33 * 32 {
            return Err(BuildIOError::OutOfRange);
        }
        let spr = (size / USR_PAGE_SIZE) * SPR_PAGE_SIZE;
        assert(size + spr <= MAX_DUMP_SIZE) by (nonlinear_arith)
            requires spr == (size / 512) * 16, size <= 130150496u64;
        let file_size = (size + spr) as usize;
        let image = filled(0xff, file_size);
        let mut io = FlashdiskIO {
            file_path,
            collation: c,
            size,
            image,
            total_usr_size: 0,
            total_spr_size: 0,
            total_units: 0,
            usr_page_offsets: Vec::new(),
            current_position: 0,
            pending_page_writes: Vec::new(),
        };
        io.set_mdoc_config(size, spr);
        proof {
            let s = flash_stream(io.image@, io.usr_page_offsets@);
            assert forall|i: int| 0 <= i < s.len() implies s[i] == 0xffu8 by {
                assert(io.usr_page_offsets@[i / USR_PAGE_SIZE as int] == EMPTY_PAGE);
            }
            assert(s =~= Seq::new(((size / USR_PAGE_SIZE - 2 * PAGES_PER_UNIT) * USR_PAGE_SIZE) as nat, |i: int| 0xffu8));
        }
        Ok(io)
    }

    /// Byte `j` of the logical stream.
    fn stream_byte(&self, j: usize) -> (r: u8)
        requires
            j < self.usr_page_offsets@.len() * USR_PAGE_SIZE,
        ensures
            r == flash_stream(self.image@, self.usr_page_offsets@)[j as int],
    {
        assert(j / 512 < self.usr_page_offsets@.len()) by (nonlinear_arith)
            requires j < self.usr_page_offsets@.len() * 512;
        let off = self.usr_page_offsets[j / (USR_PAGE_SIZE as usize)];
        if off == EMPTY_PAGE || off > self.image.len() as u64 || self.image.len() as u64 - off < USR_PAGE_SIZE {
            0xff
        } else {
            self.image[off as usize + j % (USR_PAGE_SIZE as usize)]
        }
    }

    /// The logical stream, read whole.
    fn read_stream(&self) -> (r: Vec<u8>)
        requires
            self.usr_page_offsets@.len() * USR_PAGE_SIZE <= usize::MAX,
        ensures
            r@ == flash_stream(self.image@, self.usr_page_offsets@),
    {
        let n = self.usr_page_offsets.len() * (USR_PAGE_SIZE as usize);
        let mut out: Vec<u8> = Vec::new();
        let mut j: usize = 0;
        while j < n
            invariant
                n == self.usr_page_offsets@.len() * USR_PAGE_SIZE,
                j <= n,
                out@ == flash_stream(self.image@, self.usr_page_offsets@).subrange(0, j as int),
            decreases n - j,
        {
            out.push(self.stream_byte(j));
            j = j + 1;
            assert(out@ =~= flash_stream(self.image@, self.usr_page_offsets@).subrange(0, j as int));
        }
        assert(out@ =~= flash_stream(self.image@, self.usr_page_offsets@));
        out
    }

    /// The images to store: the whole dump.
    pub fn file_image(&self) -> (r: Vec<u8>)
        ensures
            r@ == self.image_spec(),
    {
        self.image.clone()
    }
}

/// The disk information record of a user area of `usr` bytes.
fn disk_info(usr: u64) -> (r: Vec<u8>)
    requires
        USABLE_START <= usr <= MAX_DUMP_SIZE,
    ensures
        r@ == disk_info_bytes(usr as int),
        r@.len() == 14,
{
    let info = DiskInformation {
        magic: [0x41, 0x4e, 0x41, 0x4e, 0x44, 0x00],
        total_usable_units: (usr / UNIT_USER_SIZE) as i16,
        frist_usable_unit: 0,
        usable_size: (usr - USABLE_START) as i32,
    };
    assert(info.magic@ =~= disk_magic());
    info.to_le_bytes()
}

/// The user area of a rebuilt dump of `usr` user bytes holding `content`.
fn rebuild_user_area(content: &Vec<u8>, usr: usize) -> (r: Vec<u8>)
    requires
        USABLE_START + content@.len() <= usr,
        usr <= MAX_DUMP_SIZE,
    ensures
        r@ == rebuilt_user_area(content@, usr as int),
{
    let mut usr_data = filled(0xff, usr);
    copy_range(&mut usr_data, USABLE_START as usize, content, 0, content.len());
    let info = disk_info(usr as u64);
    copy_range(&mut usr_data, 0, &info, 0, 14);
    copy_range(&mut usr_data, UNIT_USER_SIZE as usize, &info, 0, 14);
    assert(usr_data@ =~= rebuilt_user_area(content@, usr as int));
    usr_data
}

/// Whether each page of `usr_data` holds a byte other than 0xff.
fn page_flags(usr_data: &Vec<u8>) -> (r: Vec<bool>)
    ensures
        r@.len() == usr_data@.len() as int / USR_PAGE_SIZE as int,
        forall|q: int| 0 <= q < r@.len() ==> r@[q] == page_written(usr_data@, q),
{
    let total = usr_data.len();
    let pages = total / (USR_PAGE_SIZE as usize);
    let mut flags: Vec<bool> = Vec::new();
    let mut q: usize = 0;
    while q < pages
        invariant
            pages == usr_data@.len() as int / USR_PAGE_SIZE as int,
            total == usr_data@.len(),
            q <= pages,
            flags@.len() == q,
            forall|t: int| 0 <= t < q ==> flags@[t] == page_written(usr_data@, t),
        decreases pages - q,
    {
        assert(q * USR_PAGE_SIZE + USR_PAGE_SIZE <= usr_data@.len()) by (nonlinear_arith)
            requires q < pages, pages == usr_data@.len() / 512;
        let mut written = false;
        let mut i: usize = 0;
        while i < USR_PAGE_SIZE as usize
            invariant
                i <= USR_PAGE_SIZE,
                q * USR_PAGE_SIZE + USR_PAGE_SIZE <= usr_data@.len(),
                total == usr_data@.len(),
                written == exists|t: int| 0 <= t < i && #[trigger] usr_data@[q * USR_PAGE_SIZE + t] != 0xff,
            decreases USR_PAGE_SIZE - i,
        {
            if usr_data[q * (USR_PAGE_SIZE as usize) + i] != 0xff {
                written = true;
            }
            i = i + 1;
        }
        flags.push(written);
        q = q + 1;
    }
    flags
}

/// The 16 spare bytes of page `q` of a rebuilt dump.
fn page_spare_bytes(usr_data: &Vec<u8>, flags: &Vec<bool>, q: usize, units: usize) -> (r: Vec<u8>)
    requires
        flags@.len() == usr_data@.len() as int / USR_PAGE_SIZE as int,
        forall|t: int| 0 <= t < flags@.len() ==> flags@[t] == page_written(usr_data@, t),
        q < flags@.len(),
        units == flags@.len() as int / PAGES_PER_UNIT as int,
        units <= 0x8000,
    ensures
        r@ == page_spare(usr_data@, q as int, units as int),
{
    let mut r: Vec<u8> = if flags[q] {
        let page_info = PageInformation { usr_ecc_data: [0, 0, 0, 0, 0, 0], usr_data_status: WRITTEN_MARK };
        let v = page_info.to_le_bytes();
        assert(0x5555i16 as u16 == 0x5555u16) by (bit_vector);
        assert(v@ =~= written_page_info());
        v
    } else {
        let v = filled(0xff, 8);
        assert(v@ =~= erased8());
        v
    };
    let n_flags = flags.len();
    let u = q / (PAGES_PER_UNIT as usize);
    let ghost info = r@;
    if u < units && q % (PAGES_PER_UNIT as usize) == 0 && u >= DISKINFO_UNITS as usize {
        assert(u * PAGES_PER_UNIT + PAGES_PER_UNIT <= flags@.len()) by (nonlinear_arith)
            requires u < units, units == flags@.len() / 16;
        let mut unit_written_flag = false;
        let mut p: usize = 0;
        while p < PAGES_PER_UNIT as usize
            invariant
                p <= PAGES_PER_UNIT,
                u * PAGES_PER_UNIT + PAGES_PER_UNIT <= flags@.len(),
                n_flags == flags@.len(),
                forall|t: int| 0 <= t < flags@.len() ==> flags@[t] == page_written(usr_data@, t),
                unit_written_flag == exists|t: int| 0 <= t < p && #[trigger] page_written(usr_data@, u * PAGES_PER_UNIT + t),
            decreases PAGES_PER_UNIT - p,
        {
            if flags[u * (PAGES_PER_UNIT as usize) + p] {
                unit_written_flag = true;
            }
            p = p + 1;
        }
        if unit_written_flag {
            let v = (u - DISKINFO_UNITS as usize) as u16;
            let order = UnitOrderInformation {
                usr_virtual_unit_number: v as i16,
                usr_replace_unit_number: -1,
                spr_virtual_unit_number: v as i16,
                spr_replace_unit_number: -1,
            };
            let mut bytes = order.to_le_bytes();
            assert(-1i16 as u16 == 0xffffu16) by (bit_vector);
            assert(v < 0x8000);
            assert(bytes@ =~= unit_order_bytes(v));
            r.append(&mut bytes);
            assert(r@ =~= info + unit_order_bytes(v));
        } else {
            let e = filled(0xff, 8);
            let mut i: usize = 0;
            while i < 8
                invariant
                    i <= 8,
                    e@ == erased8(),
                    r@ == info + e@.subrange(0, i as int),
                decreases 8 - i,
            {
                r.push(e[i]);
                i = i + 1;
                assert(r@ =~= info + e@.subrange(0, i as int));
            }
            assert(e@.subrange(0, 8) =~= erased8());
        }
    } else if u < units && q % (PAGES_PER_UNIT as usize) == 1 {
        let erase = UnitEraseInformation { wear_info: 1, usr_erase_status: ERASED_MARK, spr_erase_status: ERASED_MARK };
        let mut bytes = erase.to_le_bytes();
        assert(0x3c69i16 as u16 == 0x3c69u16) by (bit_vector);
        assert(1i32 as u32 == 1u32) by (bit_vector);
        assert(bytes@ =~= unit_erase_bytes());
        r.append(&mut bytes);
        assert(r@ =~= info + unit_erase_bytes());
    } else {
        let mut i: usize = 0;
        while i < 8
            invariant
                i <= 8,
                r@ == info + Seq::new(i as nat, |t: int| 0xffu8),
            decreases 8 - i,
        {
            r.push(0xff);
            i = i + 1;
            assert(r@ =~= info + Seq::new(i as nat, |t: int| 0xffu8));
        }
        assert(Seq::new(8, |t: int| 0xffu8) =~= erased8());
    }
    r
}

/// The spare area of a rebuilt dump.
fn build_spare(usr_data: &Vec<u8>, spr_size: usize) -> (r: Vec<u8>)
    requires
        (usr_data@.len() as int / USR_PAGE_SIZE as int) * SPR_PAGE_SIZE <= spr_size,
        usr_data@.len() <= MAX_DUMP_SIZE,
    ensures
        r@ == spare_table(usr_data@, spr_size as nat),
{
    let flags = page_flags(usr_data);
    let pages = flags.len();
    let units = pages / (PAGES_PER_UNIT as usize);
    assert(units <= 0x8000) by (nonlinear_arith)
        requires units == pages / 16, pages == usr_data@.len() as int / 512, usr_data@.len() <= 0x8000000;
    let mut spr = filled(0xff, spr_size);
    let mut q: usize = 0;
    while q < pages
        invariant
            pages == flags@.len(),
            flags@.len() == usr_data@.len() as int / USR_PAGE_SIZE as int,
            forall|t: int| 0 <= t < flags@.len() ==> flags@[t] == page_written(usr_data@, t),
            units == pages as int / PAGES_PER_UNIT as int,
            units <= 0x8000,
            pages * SPR_PAGE_SIZE <= spr_size,
            q <= pages,
            spr@.len() == spr_size,
            forall|k: int| 0 <= k < q * SPR_PAGE_SIZE ==> spr@[k] == spare_table(usr_data@, spr_size as nat)[k],
            forall|k: int| q * SPR_PAGE_SIZE <= k < spr_size ==> spr@[k] == 0xffu8,
        decreases pages - q,
    {
        let bytes = page_spare_bytes(usr_data, &flags, q, units);
        let ghost before = spr@;
        assert(q * SPR_PAGE_SIZE + SPR_PAGE_SIZE <= spr_size) by (nonlinear_arith)
            requires q < pages, pages * 16 <= spr_size;
        copy_range(&mut spr, q * (SPR_PAGE_SIZE as usize), &bytes, 0, SPR_PAGE_SIZE as usize);
        proof {
            assert forall|k: int| 0 <= k < (q + 1) * SPR_PAGE_SIZE implies spr@[k] == spare_table(usr_data@, spr_size as nat)[k] by {
                if k >= q * SPR_PAGE_SIZE {
                    assert(k / 16 == q as int && k % 16 == k - q * 16) by (nonlinear_arith)
                        requires q * 16 <= k < (q + 1) * 16;
                    assert(k < pages * SPR_PAGE_SIZE) by (nonlinear_arith)
                        requires k < (q + 1) * 16, q < pages;
                }
            }
        }
        q = q + 1;
    }
    proof {
        assert forall|k: int| 0 <= k < spr_size implies spr@[k] == spare_table(usr_data@, spr_size as nat)[k] by {
            if k >= pages * SPR_PAGE_SIZE {
            }
        }
    }
    assert(spr@ =~= spare_table(usr_data@, spr_size as nat));
    spr
}

impl FlashdiskIO {
    /// The content that `commit` stores: the stream with the buffered writes.
    fn staged_content(&self) -> (r: Vec<u8>)
        requires
            self.inv(),
        ensures
            r@ == self.staged(),
    {
        let mut content = self.read_stream();
        let mut i: usize = 0;
        while i < self.pending_page_writes.len()
            invariant
                self.inv(),
                i <= self.pending_page_writes@.len(),
                content@ == apply_writes(self.stream(), self.pending_page_writes@.subrange(0, i as int)),
                content@.len() == self.stream().len(),
            decreases self.pending_page_writes@.len() - i,
        {
            let w = &self.pending_page_writes[i];
            proof {
                assert(self.pending_page_writes@.subrange(0, i + 1).drop_last() =~= self.pending_page_writes@.subrange(0, i as int));
                assert(w.page_index * USR_PAGE_SIZE + w.page_offset <= self.stream().len());
            }
            let at = w.page_index * (USR_PAGE_SIZE as usize) + w.page_offset;
            crate::buildio::image_write(&mut content, at, &w.data);
            i = i + 1;
        }
        assert(self.pending_page_writes@.subrange(0, self.pending_page_writes@.len() as int) =~= self.pending_page_writes@);
        content
    }

    /// Rebuilds the whole dump from the stream with the buffered writes: the
    /// disk information, the content from the first usable unit on, and a
    /// linear spare table; the page map follows the rebuilt dump.
    pub fn rebuild(&mut self) -> (r: Result<(), BuildIOError>)
        requires
            old(self).inv(),
        ensures
            final(self).inv(),
            final(self).collation_spec() == old(self).collation_spec(),
            final(self).path_spec() == old(self).path_spec(),
            final(self).stream() == old(self).staged(),
            final(self).staged() == old(self).staged(),
            final(self).usr_size() == old(self).usr_size(),
            final(self).spr_size() == old(self).spr_size(),
            r is Ok,
            old(self).pending_writes().len() > 0 ==> final(self).image_spec()
                == rebuilt_dump(old(self).staged(), old(self).usr_size(), old(self).spr_size() as nat)
                && final(self).page_map() == linear_map(old(self).staged()),
            old(self).pending_writes().len() == 0 ==> final(self).image_spec() == old(self).image_spec(),
    {
        proof {
            self.lemma_inv();
        }
        if self.pending_page_writes.len() == 0 {
            return Ok(());
        }
        let content = self.staged_content();
        let usr = self.total_usr_size as usize;
        let ghost n_pages = self.usr_page_offsets@.len();
        assert(content@.len() == n_pages * USR_PAGE_SIZE);
        assert(USABLE_START + n_pages * USR_PAGE_SIZE <= usr) by (nonlinear_arith)
            requires n_pages == usr / 512 - 32, usr >= 16384;
        let usr_data = rebuild_user_area(&content, usr);
        assert((usr_data@.len() as int / USR_PAGE_SIZE as int) * SPR_PAGE_SIZE <= self.total_spr_size);
        let mut spr = build_spare(&usr_data, self.total_spr_size as usize);
        let ghost dump = usr_data@ + spr@;
        let offsets = FlashdiskIO::linear_offsets(&content);
        let mut image = usr_data;
        image.append(&mut spr);
        self.image = image;
        self.usr_page_offsets = offsets;
        self.pending_page_writes.clear();
        self.current_position = 0;
        proof {
            let s = flash_stream(self.image@, self.usr_page_offsets@);
            assert(self.usr_page_offsets@.len() == n_pages);
            assert forall|j: int| 0 <= j < content@.len() implies s[j] == content@[j] by {
                let v = j / USR_PAGE_SIZE as int;
                let t = j % USR_PAGE_SIZE as int;
                assert(j == v * 512 + t && 0 <= t < 512 && 0 <= v < n_pages) by (nonlinear_arith)
                    requires 0 <= j < n_pages * 512, v == j / 512, t == j % 512;
                if page_written(content@, v) {
                    let off = (v + 2 * PAGES_PER_UNIT) * USR_PAGE_SIZE;
                    assert(off + 512 <= usr) by (nonlinear_arith)
                        requires off == (v + 32) * 512, v < n_pages, USABLE_START + n_pages * 512 <= usr;
                    assert(off + t == USABLE_START + j) by (nonlinear_arith)
                        requires off == (v + 32) * 512, j == v * 512 + t;
                    assert(self.image@[off + t] == rebuilt_user_area(content@, usr as int)[off + t]);
                } else {
                    assert(content@[v * USR_PAGE_SIZE + t] == 0xff);
                }
            }
            assert(s =~= content@);
            assert(self.image@ =~= rebuilt_dump(content@, usr as int, self.total_spr_size as nat));
        }
        Ok(())
    }

    /// The page map of a rebuilt dump holding `content`.
    fn linear_offsets(content: &Vec<u8>) -> (r: Vec<u64>)
        requires
            content@.len() as int % USR_PAGE_SIZE as int == 0,
            content@.len() <= MAX_DUMP_SIZE,
        ensures
            r@ == linear_map(content@),
    {
        let flags = page_flags(content);
        let mut offsets: Vec<u64> = Vec::new();
        let mut v: usize = 0;
        while v < flags.len()
            invariant
                flags@.len() == content@.len() as int / USR_PAGE_SIZE as int,
                content@.len() <= MAX_DUMP_SIZE,
                forall|t: int| 0 <= t < flags@.len() ==> flags@[t] == page_written(content@, t),
                v <= flags@.len(),
                offsets@ == linear_map(content@).subrange(0, v as int),
            decreases flags@.len() - v,
        {
            let off = if flags[v] {
                ((v as u64) + 2 * PAGES_PER_UNIT) * USR_PAGE_SIZE
            } else {
                EMPTY_PAGE
            };
            offsets.push(off);
            v = v + 1;
            assert(offsets@ =~= linear_map(content@).subrange(0, v as int));
        }
        assert(offsets@ =~= linear_map(content@));
        offsets
    }
}

impl FlashdiskIO {
    /// The rules of a flash handle: reads and writes move whole 16-bit words,
    /// four bytes at least; a write buffers the collated buffer; nothing
    /// fails.
    pub proof fn lemma_rules(&self)
        ensures
            forall|n: int| #[trigger] self.accepts_read(n) == (n >= 4 && n % 2 == 0),
            forall|n: int| #[trigger] self.accepts_write(n) == (n >= 4 && n % 2 == 0),
            forall|b: Seq<u8>| #[trigger] self.write_image(b) == apply_collation(b, self.collation_spec()),
            forall|p: int, n: int| #[trigger] self.read_ok(p, n),
            self.infallible() && self.commit_ok(),
    {
    }
}

impl BuildIO for FlashdiskIO {
    closed spec fn stream(&self) -> Seq<u8> {
        flash_stream(self.image@, self.usr_page_offsets@)
    }

    closed spec fn staged(&self) -> Seq<u8> {
        apply_writes(self.stream(), self.pending_page_writes@)
    }

    closed spec fn position(&self) -> int {
        self.current_position as int
    }

    closed spec fn collation_spec(&self) -> BuildIODataCollation {
        self.collation
    }

    closed spec fn path_spec(&self) -> Seq<char> {
        self.file_path@
    }

    closed spec fn accepts_read(&self, n: int) -> bool {
        n >= 4 && n % 2 == 0
    }

    closed spec fn accepts_write(&self, n: int) -> bool {
        n >= 4 && n % 2 == 0
    }

    closed spec fn infallible(&self) -> bool {
        true
    }

    closed spec fn read_ok(&self, pos: int, n: int) -> bool {
        true
    }

    closed spec fn commit_ok(&self) -> bool {
        true
    }

    closed spec fn backend(&self) -> nat {
        0
    }

    closed spec fn write_image(&self, buf: Seq<u8>) -> Seq<u8> {
        apply_collation(buf, self.collation)
    }

    closed spec fn inv(&self) -> bool {
        &&& self.total_usr_size + self.total_spr_size == self.image@.len()
        &&& self.image@.len() <= MAX_DUMP_SIZE
        &&& self.image@.len() <= usize::MAX
        &&& self.total_usr_size >= USABLE_START
        &&& self.total_units == self.total_usr_size / USR_PAGE_SIZE / PAGES_PER_UNIT
        &&& (self.total_usr_size / USR_PAGE_SIZE) * SPR_PAGE_SIZE <= self.total_spr_size
        &&& self.usr_page_offsets@.len() == self.total_usr_size / USR_PAGE_SIZE - 2 * PAGES_PER_UNIT
        &&& self.current_position <= self.usr_page_offsets@.len() * USR_PAGE_SIZE
        &&& forall|i: int| 0 <= i < self.pending_page_writes@.len() ==>
            (#[trigger] self.pending_page_writes@[i]).page_index * USR_PAGE_SIZE + self.pending_page_writes@[i].page_offset
                <= self.usr_page_offsets@.len() * USR_PAGE_SIZE
    }

    proof fn lemma_inv(&self) {
        assert(self.usr_page_offsets@.len() * USR_PAGE_SIZE <= self.total_usr_size) by (nonlinear_arith)
            requires self.usr_page_offsets@.len() == self.total_usr_size / 512 - 32, self.total_usr_size >= 16384;
        lemma_apply_writes_len(self.stream(), self.pending_page_writes@);
    }

    fn file_path(&self) -> (r: String) {
        self.file_path.clone()
    }

    fn collation(&self) -> (r: BuildIODataCollation) {
        self.collation
    }

    fn len(&self) -> (r: u64) {
        proof {
            self.lemma_inv();
        }
        self.usr_page_offsets.len() as u64 * USR_PAGE_SIZE
    }

    fn seek(&mut self, pos: u64) -> (r: Result<u64, BuildIOError>) {
        proof {
            self.lemma_inv();
        }
        if pos <= self.usr_page_offsets.len() as u64 * USR_PAGE_SIZE {
            self.current_position = pos as usize;
            Ok(pos)
        } else {
            Err(BuildIOError::OutOfRange)
        }
    }

    fn read(&mut self, buf: &mut Vec<u8>) -> (r: Result<usize, BuildIOError>) {
        proof {
            self.lemma_inv();
        }
        let n = buf.len();
        if n < 4 || n % 2 == 1 {
            return Err(BuildIOError::BufferLength);
        }
        let len = self.usr_page_offsets.len() * (USR_PAGE_SIZE as usize);
        let pos = self.current_position;
        let k = if n <= len - pos { n } else { len - pos };
        let ghost orig = buf@;
        let mut i: usize = 0;
        while i < k
            invariant
                self.inv(),
                len == self.stream().len(),
                pos == self.current_position,
                pos + k <= len,
                k <= n,
                i <= k,
                buf@.len() == n,
                n == orig.len(),
                forall|t: int| 0 <= t < i ==> buf@[t] == self.stream()[pos + t],
                forall|t: int| i <= t < n ==> buf@[t] == orig[t],
            decreases k - i,
        {
            buf.set(i, self.stream_byte(pos + i));
            i = i + 1;
        }
        assert(buf@ =~= self.stream().subrange(pos as int, pos + k) + orig.subrange(k as int, n as int));
        let _ = BuildIODataCollation::convert_raw_data(buf, self.collation);
        self.current_position = pos + k;
        Ok(k)
    }

    fn write(&mut self, buf: &Vec<u8>) -> (r: Result<usize, BuildIOError>) {
        proof {
            self.lemma_inv();
        }
        let n = buf.len();
        if n < 4 || n % 2 == 1 {
            return Err(BuildIOError::BufferLength);
        }
        let mut data = buf.clone();
        let _ = BuildIODataCollation::convert_raw_data(&mut data, self.collation);
        let len = self.usr_page_offsets.len() * (USR_PAGE_SIZE as usize);
        let pos = self.current_position;
        let k = if n <= len - pos { n } else { len - pos };
        let ghost whole = data@;
        data.truncate(k);
        assert(splice(self.staged(), pos as int, data@) =~= splice(self.staged(), pos as int, whole));
        let ghost old_pending = self.pending_page_writes@;
        self.pending_page_writes.push(PageWriteInfo {
            page_index: pos / (USR_PAGE_SIZE as usize),
            page_offset: pos % (USR_PAGE_SIZE as usize),
            size: k,
            data,
        });
        proof {
            assert(self.pending_page_writes@.drop_last() =~= old_pending);
        }
        self.current_position = pos + k;
        Ok(k)
    }

    fn commit(&mut self) -> (r: Result<(), BuildIOError>) {
        self.rebuild()
    }
}

/// The page map of a rebuilt dump after the chains of its first `l` units.
pub open spec fn linear_prefix(content: Seq<u8>, l: int) -> Seq<u64> {
    Seq::new((content.len() as int / USR_PAGE_SIZE as int) as nat, |v: int|
        if v / PAGES_PER_UNIT as int + DISKINFO_UNITS < l && page_written(content, v) {
            ((v + 2 * PAGES_PER_UNIT) * USR_PAGE_SIZE) as u64
        } else {
            EMPTY_PAGE
        })
}

/// The spare byte `r` of page `q` in a rebuilt dump.
proof fn lemma_spare_byte(usr_data: Seq<u8>, spr: nat, q: int, r: int)
    requires
        0 <= q < usr_data.len() as int / USR_PAGE_SIZE as int,
        0 <= r < 16,
    ensures
        q * 16 + r < (usr_data.len() as int / USR_PAGE_SIZE as int) * SPR_PAGE_SIZE,
        q * 16 + r < spr ==> spare_table(usr_data, spr)[q * 16 + r]
            == page_spare(usr_data, q, (usr_data.len() as int / USR_PAGE_SIZE as int) / PAGES_PER_UNIT as int)[r],
{
    let k = q * 16 + r;
    assert(k / 16 == q && k % 16 == r) by (nonlinear_arith)
        requires k == q * 16 + r, 0 <= r < 16;
    assert(q * 16 + r < (usr_data.len() as int / 512) * 16) by (nonlinear_arith)
        requires q < usr_data.len() as int / 512, 0 <= r < 16;
}

/// Page `q` of the rebuilt user area of a content is page `q - 32` of the content.
proof fn lemma_rebuilt_page(content: Seq<u8>, usr: int, q: int)
    requires
        usr >= USABLE_START + content.len(),
        content.len() as int % USR_PAGE_SIZE as int == 0,
        2 * PAGES_PER_UNIT <= q,
        q - 2 * PAGES_PER_UNIT < content.len() as int / USR_PAGE_SIZE as int,
    ensures
        page_written(rebuilt_user_area(content, usr), q) == page_written(content, q - 2 * PAGES_PER_UNIT),
{
    let u = rebuilt_user_area(content, usr);
    let v = q - 32;
    assert forall|i: int| 0 <= i < 512 implies #[trigger] u[q * 512 + i] == content[v * 512 + i] by {
        assert(q * 512 + i == USABLE_START + v * 512 + i);
        assert(v * 512 + i < content.len()) by (nonlinear_arith)
            requires v < content.len() as int / 512, 0 <= i < 512, content.len() as int % 512 == 0;
        assert(0 <= v * 512 + i) by (nonlinear_arith)
            requires v >= 0, i >= 0;
    }
    if page_written(u, q) {
        let i = choose|i: int| 0 <= i < 512 && #[trigger] u[q * 512 + i] != 0xff;
        assert(content[v * 512 + i] != 0xff);
    }
    if page_written(content, v) {
        let i = choose|i: int| 0 <= i < 512 && #[trigger] content[v * 512 + i] != 0xff;
        assert(u[q * 512 + i] != 0xff);
    }
}

/// The conditions under which a rebuilt dump is laid out as `commit` lays it.
pub open spec fn rebuild_sizes(content: Seq<u8>, usr: int, spr: nat) -> bool {
    &&& usr >= USABLE_START
    &&& content.len() == (usr / USR_PAGE_SIZE as int - 2 * PAGES_PER_UNIT) * USR_PAGE_SIZE
    &&& (usr / USR_PAGE_SIZE as int) * SPR_PAGE_SIZE <= spr
}

/// The rebuilt dump of `content`: its user area, then its spare area.
pub open spec fn rebuilt_dump(content: Seq<u8>, usr: int, spr: nat) -> Seq<u8> {
    rebuilt_user_area(content, usr) + spare_table(rebuilt_user_area(content, usr), spr)
}

/// Spare byte `r` of page `q` in a rebuilt dump.
proof fn lemma_dump_spare(content: Seq<u8>, usr: int, spr: nat, q: int, r: int)
    requires
        rebuild_sizes(content, usr, spr),
        0 <= q < usr / USR_PAGE_SIZE as int,
        0 <= r < 16,
    ensures
        usr + q * 16 + r < rebuilt_dump(content, usr, spr).len(),
        rebuilt_dump(content, usr, spr)[usr + q * 16 + r]
            == page_spare(rebuilt_user_area(content, usr), q, usr / USR_PAGE_SIZE as int / PAGES_PER_UNIT as int)[r],
{
    let u = rebuilt_user_area(content, usr);
    assert(u.len() == usr);
    lemma_spare_byte(u, spr, q, r);
}

proof fn lemma_rebuilt_erase(content: Seq<u8>, usr: int, spr: nat, l: int)
    requires
        rebuild_sizes(content, usr, spr),
        0 <= l < usr / USR_PAGE_SIZE as int / PAGES_PER_UNIT as int,
    ensures
        control_readable(rebuilt_dump(content, usr, spr), usr, l),
        erase_status(rebuilt_dump(content, usr, spr), usr, l) == ERASED_MARK,
{
    let img = rebuilt_dump(content, usr, spr);
    let pages = usr / 512;
    let units = pages / 16;
    assert(l * 16 + 2 < pages && l * 256 + 48 <= pages * 16) by (nonlinear_arith)
        requires l < units, units == pages / 16, pages >= 0, l >= 0;
    assert((l * 16 + 1) / 16 == l && (l * 16 + 1) % 16 == 1) by (nonlinear_arith)
        requires l >= 0;
    lemma_dump_spare(content, usr, spr, l * 16 + 2, 15);
    lemma_dump_spare(content, usr, spr, l * 16 + 1, 12);
    lemma_dump_spare(content, usr, spr, l * 16 + 1, 13);
    assert(0x3c69u16 as i16 == 0x3c69i16) by (bit_vector);
}

proof fn lemma_rebuilt_order(content: Seq<u8>, usr: int, spr: nat, l: int)
    requires
        rebuild_sizes(content, usr, spr),
        usr / USR_PAGE_SIZE as int / PAGES_PER_UNIT as int <= 0x8000,
        0 <= l < usr / USR_PAGE_SIZE as int / PAGES_PER_UNIT as int,
    ensures
        replace_unit(rebuilt_dump(content, usr, spr), usr, l) == -1,
        (virtual_unit(rebuilt_dump(content, usr, spr), usr, l) >= 0)
            == (l >= DISKINFO_UNITS && unit_written(rebuilt_user_area(content, usr), l)),
        virtual_unit(rebuilt_dump(content, usr, spr), usr, l) >= 0
            ==> virtual_unit(rebuilt_dump(content, usr, spr), usr, l) == l - DISKINFO_UNITS,
{
    let img = rebuilt_dump(content, usr, spr);
    let u = rebuilt_user_area(content, usr);
    let pages = usr / 512;
    let units = pages / 16;
    assert(l * 16 < pages) by (nonlinear_arith)
        requires l < units, units == pages / 16, pages >= 0, l >= 0;
    assert((l * 16) / 16 == l && (l * 16) % 16 == 0) by (nonlinear_arith)
        requires l >= 0;
    lemma_dump_spare(content, usr, spr, l * 16, 8);
    lemma_dump_spare(content, usr, spr, l * 16, 9);
    lemma_dump_spare(content, usr, spr, l * 16, 10);
    lemma_dump_spare(content, usr, spr, l * 16, 11);
    assert(usr + l * 256 + 8 == usr + l * 16 * 16 + 8);
    assert(0xffffu16 as i16 == -1i16) by (bit_vector);
    assert(spare_u16(img, usr + l * 256 + 10) == 0xffffu16);
    if l >= 2 && unit_written(u, l) {
        let v = (l - 2) as u16;
        assert(img[usr + l * 256 + 8] == (v % 0x100) as u8 && img[usr + l * 256 + 9] == (v / 0x100) as u8);
        assert(spare_u16(img, usr + l * 256 + 8) == v);
        assert(v < 0x8000);
        assert(v as i16 == v as int);
    } else {
        assert(img[usr + l * 256 + 8] == 0xffu8 && img[usr + l * 256 + 9] == 0xffu8);
        assert(spare_u16(img, usr + l * 256 + 8) == 0xffffu16);
    }
}

proof fn lemma_rebuilt_marks(content: Seq<u8>, usr: int, spr: nat, l: int, p: int)
    requires
        rebuild_sizes(content, usr, spr),
        0 <= l < usr / USR_PAGE_SIZE as int / PAGES_PER_UNIT as int,
        0 <= p < PAGES_PER_UNIT,
    ensures
        page_marked(rebuilt_dump(content, usr, spr), usr, l, p) == page_written(rebuilt_user_area(content, usr), l * PAGES_PER_UNIT + p),
{
    let pages = usr / 512;
    let units = pages / 16;
    assert(l * 16 + p < pages) by (nonlinear_arith)
        requires l < units, units == pages / 16, 0 <= p < 16, pages >= 0, l >= 0;
    lemma_dump_spare(content, usr, spr, l * 16 + p, 6);
    lemma_dump_spare(content, usr, spr, l * 16 + p, 7);
    assert(usr + l * 256 + p * 16 + 6 == usr + (l * 16 + p) * 16 + 6);
    assert(0xffffu16 as i16 == -1i16) by (bit_vector);
    assert(0x5555u16 as i16 == 0x5555i16) by (bit_vector);
}

/// The pages of a live rebuilt unit `l` take their linear places.
proof fn lemma_rebuilt_mark_pages(content: Seq<u8>, usr: int, spr: nat, l: int, p: nat)
    requires
        rebuild_sizes(content, usr, spr),
        usr / USR_PAGE_SIZE as int / PAGES_PER_UNIT as int <= 0x8000,
        DISKINFO_UNITS <= l < usr / USR_PAGE_SIZE as int / PAGES_PER_UNIT as int,
        p <= PAGES_PER_UNIT,
    ensures
        mark_pages(linear_prefix(content, l), rebuilt_dump(content, usr, spr), usr, l, l - DISKINFO_UNITS, p)
            == Seq::new((content.len() as int / USR_PAGE_SIZE as int) as nat, |v: int|
                if (l - 2) * 16 <= v < (l - 2) * 16 + p && page_written(content, v) {
                    ((v + 2 * PAGES_PER_UNIT) * USR_PAGE_SIZE) as u64
                } else {
                    linear_prefix(content, l)[v]
                }),
    decreases p,
{
    let n = content.len() as int / 512;
    let target = Seq::new(n as nat, |v: int|
        if (l - 2) * 16 <= v < (l - 2) * 16 + p && page_written(content, v) {
            ((v + 2 * PAGES_PER_UNIT) * USR_PAGE_SIZE) as u64
        } else {
            linear_prefix(content, l)[v]
        });
    if p == 0 {
        assert(mark_pages(linear_prefix(content, l), rebuilt_dump(content, usr, spr), usr, l, l - 2, p) =~= target);
    } else {
        let q = p - 1;
        lemma_rebuilt_mark_pages(content, usr, spr, l, (p - 1) as nat);
        let pages = usr / 512;
        let units = pages / 16;
        vstd::arithmetic::div_mod::lemma_fundamental_div_mod_converse(content.len() as int, 512, pages - 32, 0);
        assert((l - 2) * 16 + q < n) by (nonlinear_arith)
            requires l < units, units == pages / 16, q < 16, n == pages - 32, l >= 2;
        lemma_rebuilt_marks(content, usr, spr, l, q);
        lemma_rebuilt_page(content, usr, l * 16 + q);
        assert(((l * 16 + q) * 512) as u64 == (((l - 2) * 16 + q + 32) * 512) as u64);
        assert(mark_pages(linear_prefix(content, l), rebuilt_dump(content, usr, spr), usr, l, l - 2, p) =~= target);
    }
}

/// The page map that reopening a rebuilt dump builds, unit by unit.
proof fn lemma_rebuilt_enumerate(content: Seq<u8>, usr: int, spr: nat, l: nat)
    requires
        rebuild_sizes(content, usr, spr),
        usr % UNIT_USER_SIZE as int == 0,
        usr / USR_PAGE_SIZE as int / PAGES_PER_UNIT as int <= 0x8000,
        l <= usr / USR_PAGE_SIZE as int / PAGES_PER_UNIT as int,
    ensures
        enumerate(rebuilt_dump(content, usr, spr), usr, usr / USR_PAGE_SIZE as int / PAGES_PER_UNIT as int,
            (usr / USR_PAGE_SIZE as int - 2 * PAGES_PER_UNIT) as nat, l) == linear_prefix(content, l as int),
    decreases l,
{
    let pages = usr / 512;
    let units = pages / 16;
    let n = pages - 32;
    let img = rebuilt_dump(content, usr, spr);
    vstd::arithmetic::div_mod::lemma_fundamental_div_mod_converse(content.len() as int, 512, pages - 32, 0);
    if l == 0 {
        assert(enumerate(img, usr, units, n as nat, 0) =~= linear_prefix(content, 0));
    } else {
        let k = l - 1;
        lemma_rebuilt_enumerate(content, usr, spr, (l - 1) as nat);
        let prev = linear_prefix(content, k);
        lemma_rebuilt_erase(content, usr, spr, k);
        lemma_rebuilt_order(content, usr, spr, k);
        let u = rebuilt_user_area(content, usr);
        if k >= 2 && unit_written(u, k) {
            lemma_rebuilt_mark_pages(content, usr, spr, k, 16);
            assert forall|v: int| 0 <= v < n implies #[trigger] linear_prefix(content, l as int)[v]
                == (if (k - 2) * 16 <= v < (k - 2) * 16 + 16 && page_written(content, v) {
                    ((v + 2 * PAGES_PER_UNIT) * USR_PAGE_SIZE) as u64 } else { prev[v] }) by {
                if (k - 2) * 16 <= v < (k - 2) * 16 + 16 {
                    assert(v / 16 == k - 2) by (nonlinear_arith)
                        requires (k - 2) * 16 <= v < (k - 2) * 16 + 16;
                } else if v < (k - 2) * 16 {
                    assert(v / 16 < k - 2) by (nonlinear_arith)
                        requires 0 <= v < (k - 2) * 16;
                } else {
                    assert(v / 16 >= k - 1) by (nonlinear_arith)
                        requires v >= (k - 1) * 16;
                }
            }
            assert(linear_prefix(content, l as int) =~= mark_pages(prev, img, usr, k, k - 2, 16));
        } else {
            assert forall|v: int| 0 <= v < n implies #[trigger] linear_prefix(content, l as int)[v] == prev[v] by {
                if v / 16 + 2 == k && page_written(content, v) {
                    let p = v - (k - 2) * 16;
                    vstd::arithmetic::div_mod::lemma_fundamental_div_mod(v, 16);
                    assert(0 <= p < 16 && v == (k - 2) * 16 + p);
                    assert(k * 16 + p - 32 == v);
                    assert(k * 16 + p < pages) by (nonlinear_arith)
                        requires k < units, units == pages / 16, p < 16, pages >= 0, k >= 0;
                    lemma_rebuilt_page(content, usr, k * 16 + p);
                    assert(page_written(u, k * 16 + p));
                }
            }
            assert(linear_prefix(content, l as int) =~= prev);
        }
    }
}

/// Reopening a dump that `commit` rebuilt finds every written virtual page
/// at its linear place and every other page erased, so it reads back as the
/// content it was rebuilt from. (The user area must be a whole number of
/// units, and the units few enough for 15-bit virtual unit numbers.)
pub proof fn lemma_rebuilt_dump_reopens(content: Seq<u8>, usr: int, spr: nat)
    requires
        rebuild_sizes(content, usr, spr),
        usr % UNIT_USER_SIZE as int == 0,
        usr / USR_PAGE_SIZE as int / PAGES_PER_UNIT as int <= 0x8000,
    ensures
        enumerate(rebuilt_dump(content, usr, spr), usr, usr / USR_PAGE_SIZE as int / PAGES_PER_UNIT as int,
            (usr / USR_PAGE_SIZE as int - 2 * PAGES_PER_UNIT) as nat, (usr / USR_PAGE_SIZE as int / PAGES_PER_UNIT as int) as nat)
            == linear_map(content),
        flash_stream(rebuilt_dump(content, usr, spr), linear_map(content)) == content,
{
    let pages = usr / 512;
    let units = pages / 16;
    let n = pages - 32;
    let img = rebuilt_dump(content, usr, spr);
    lemma_rebuilt_enumerate(content, usr, spr, units as nat);
    assert(pages == units * 16) by (nonlinear_arith)
        requires usr % 8192 == 0, pages == usr / 512, units == pages / 16;
    vstd::arithmetic::div_mod::lemma_fundamental_div_mod_converse(content.len() as int, 512, pages - 32, 0);
    assert forall|v: int| 0 <= v < n implies #[trigger] linear_prefix(content, units)[v] == linear_map(content)[v] by {
        assert(v / 16 + 2 < units) by (nonlinear_arith)
            requires 0 <= v < n, n == units * 16 - 32;
    }
    assert(linear_prefix(content, units) =~= linear_map(content));
    let s = flash_stream(img, linear_map(content));
    assert forall|j: int| 0 <= j < content.len() implies s[j] == content[j] by {
        let v = j / 512;
        let t = j % 512;
        assert(j == v * 512 + t && 0 <= t < 512 && 0 <= v < n) by (nonlinear_arith)
            requires 0 <= j < n * 512, v == j / 512, t == j % 512;
        if page_written(content, v) {
            let off = (v + 32) * 512;
            assert(off + 512 <= usr) by (nonlinear_arith)
                requires off == (v + 32) * 512, v < n, n == pages - 32, pages == usr / 512;
            assert(off + t == USABLE_START + j) by (nonlinear_arith)
                requires off == (v + 32) * 512, j == v * 512 + t;
            assert(img[off + t] == rebuilt_user_area(content, usr)[off + t]);
        } else {
            assert(content[v * 512 + t] == 0xff);
        }
    }
    assert(s =~= content);
}

} // verus!
