//! Hard-disk images: raw images, and compressed hunk containers with a
//! copy-on-write overlay ("diff") that holds the hunks written since.

use vstd::prelude::*;
use std::io::Cursor;
use regex::Regex;
use crate::buildio::{apply_collation, image_read, image_write, splice, span, BuildIO, BuildIODataCollation, BuildIOError};
use crate::bytes::{be_bytes_u32, be_u32_at, be_u64_at, copy_range, filled, read_be_u32, read_be_u64};

verus! {

/// An opened compressed hunk container (and the container it overlays).
///
/// `chd::Chd` cannot be declared to Verus directly: its type parameter is
/// bound by std's `Read` and `Seek`, which Verus does not accept as bounds of
/// a declared type. It is held here instead, and read only through the
/// wrappers below.
#[verifier::external_body]
pub struct HunkContainer {
    chd: chd::Chd<Cursor<Vec<u8>>>,
}

/// Whether the bytes `image` open as a container, over the container that
/// the bytes `parent` open as where there is one.
pub uninterp spec fn container_opens(image: Seq<u8>, parent: Option<Seq<u8>>) -> bool;

/// Whether hunk `index` of a container decompresses into a zeroed buffer of
/// `len` bytes.
pub uninterp spec fn container_hunk_ok(c: HunkContainer, index: u32, len: nat) -> bool;

/// The decompressed bytes of hunk `index` of a container, read into a zeroed
/// buffer of one hunk.
pub uninterp spec fn container_hunk(c: HunkContainer, index: u32) -> Seq<u8>;

/// The view of an optional image.
pub open spec fn image_view(o: Option<Vec<u8>>) -> Option<Seq<u8>> {
    match o {
        Some(v) => Some(v@),
        None => None,
    }
}

pub open spec fn header_hunk_bytes(b: Seq<u8>) -> u32 {
    be_u32_at(b, 56)
}

pub open spec fn header_unit_bytes(b: Seq<u8>) -> u32 {
    be_u32_at(b, 60)
}

pub open spec fn header_logical_bytes(b: Seq<u8>) -> u64 {
    be_u64_at(b, 32)
}

/// Hunks the container reader counts for a header: the disk size rounded up
/// to whole hunks.
pub open spec fn header_hunk_count(b: Seq<u8>) -> int {
    (header_logical_bytes(b) + header_hunk_bytes(b) - 1) / header_hunk_bytes(b) as int
}

/// A version 5 header that the container reader takes without fault: the
/// magic, the header length and version, no compression (an uncompressed
/// hunk map, whose entries name stored hunks or the parent's), a hunk of at
/// most `MAX_HUNK_SIZE` bytes made of whole sectors, a size that rounds up to
/// fewer than 2^32 whole hunks within 64 bits, and a hunk map inside the
/// bytes.
///
/// A compressed hunk map is refused: the reader decodes it with unchecked
/// offset arithmetic, and its entries may send a hunk back to itself, which
/// the reader follows without bound.
pub open spec fn v5_header_ok(b: Seq<u8>) -> bool {
    &&& b.len() >= CHD_HEADER_SIZE
    &&& b.subrange(0, 8) == chd_magic()
    &&& be_u32_at(b, 8) == CHD_HEADER_SIZE
    &&& be_u32_at(b, 12) == CHD_HEADER_VERSION
    &&& be_u32_at(b, 16) == 0 && be_u32_at(b, 20) == 0 && be_u32_at(b, 24) == 0 && be_u32_at(b, 28) == 0
    &&& 0 < header_hunk_bytes(b) <= MAX_HUNK_SIZE
    &&& 0 < header_unit_bytes(b)
    &&& header_hunk_bytes(b) % header_unit_bytes(b) == 0
    &&& header_logical_bytes(b) + header_hunk_bytes(b) <= u64::MAX
    &&& header_hunk_count(b) < 0x1_0000_0000
    &&& be_u64_at(b, 40) + 4 * header_hunk_count(b) <= b.len()
}

/// Two headers with the same hunk and sector sizes.
pub open spec fn same_geometry(a: Seq<u8>, b: Seq<u8>) -> bool {
    header_hunk_bytes(a) == header_hunk_bytes(b) && header_unit_bytes(a) == header_unit_bytes(b)
}

/// Whether `image`, overlaid by `diff` where there is one, opens as a hunk
/// stream: both headers check, the disk has fewer than 2^32 whole hunks that
/// fit in memory, and the container reader opens the bytes.
pub open spec fn hunk_open_ok(image: Seq<u8>, diff: Option<Seq<u8>>) -> bool {
    let top = match diff { Some(d) => d, None => image };
    let parent = match diff { Some(d) => Some(image), None => None };
    let hs = header_hunk_bytes(top) as int;
    let n = header_logical_bytes(top) as int / hs;
    &&& v5_header_ok(image)
    &&& (diff matches Some(d) ==> v5_header_ok(d) && same_geometry(d, image))
    &&& n < 0x1_0000_0000
    &&& header_logical_bytes(top) as int % hs == 0
    &&& n * hs <= usize::MAX
    &&& container_opens(top, parent)
}

/// Checks a header as `v5_header_ok` states.
fn header_checks(b: &Vec<u8>) -> (r: bool)
    ensures
        r == v5_header_ok(b@),
{
    if b.len() < CHD_HEADER_SIZE as usize {
        return false;
    }
    let magic = [77u8, 67, 111, 109, 112, 114, 72, 68];
    assert(magic@ =~= chd_magic());
    let mut k: usize = 0;
    while k < 8
        invariant
            k <= 8,
            b@.len() >= CHD_HEADER_SIZE,
            magic@ == chd_magic(),
            b@.subrange(0, k as int) == chd_magic().subrange(0, k as int),
        decreases 8 - k,
    {
        if b[k] != magic[k] {
            assert(b@.subrange(0, 8)[k as int] != chd_magic()[k as int]);
            return false;
        }
        k = k + 1;
        assert(b@.subrange(0, k as int) =~= chd_magic().subrange(0, k as int));
    }
    assert(chd_magic().subrange(0, 8) =~= chd_magic());
    let hunk = read_be_u32(b, 56);
    let unit = read_be_u32(b, 60);
    let logical = read_be_u64(b, 32);
    if !(read_be_u32(b, 8) == CHD_HEADER_SIZE as u32 && read_be_u32(b, 12) == CHD_HEADER_VERSION
        && read_be_u32(b, 16) == 0 && read_be_u32(b, 20) == 0 && read_be_u32(b, 24) == 0 && read_be_u32(b, 28) == 0
        && hunk > 0 && hunk <= MAX_HUNK_SIZE && unit > 0 && hunk % unit == 0 && logical <= u64::MAX - hunk as u64) {
        return false;
    }
    let count = (logical + hunk as u64 - 1) / hunk as u64;
    let map_offset = read_be_u64(b, 40);
    count < 0x1_0000_0000 && map_offset <= b.len() as u64 && (b.len() as u64 - map_offset) / 4 >= count
}

impl HunkContainer {
    /// Relies on `chd::Chd::open`: reads and checks the header and hunk map of
    /// `image`, over the container read from `parent` where there is one.
    /// The headers are checked first: the reader's own size arithmetic and
    /// the hunk reads of an overlay assume what `v5_header_ok` and
    /// `same_geometry` state.
    #[verifier::external_body]
    pub(crate) fn open(image: Vec<u8>, parent: Option<Vec<u8>>) -> (r: Result<HunkContainer, BuildIOError>)
        requires
            v5_header_ok(image@),
            parent matches Some(p) ==> v5_header_ok(p@) && same_geometry(image@, p@),
        ensures
            r is Ok <==> container_opens(image@, image_view(parent)),
            r is Err ==> r->Err_0 == BuildIOError::Format,
    {
        let parent_chd = match parent {
            Some(p) => match chd::Chd::open(Cursor::new(p), None) {
                Ok(c) => Some(Box::new(c)),
                Err(_) => return Err(BuildIOError::Format),
            },
            None => None,
        };
        match chd::Chd::open(Cursor::new(image), parent_chd) {
            Ok(chd) => Ok(HunkContainer { chd }),
            Err(_) => Err(BuildIOError::Format),
        }
    }

    /// Relies on `chd::Chd::hunk` and `chd::Hunk::read_hunk_in`: reads hunk
    /// `index` into the zeroed buffer `out`, which must be one hunk long. The
    /// container was opened from headers that `v5_header_ok` holds of, so its
    /// map entries name stored hunks or the parent's same hunk, never another
    /// hunk of the same container.
    #[verifier::external_body]
    pub(crate) fn read_hunk(&mut self, index: u32, out: &mut Vec<u8>) -> (r: Result<(), BuildIOError>)
        requires
            forall|i: int| 0 <= i < old(out)@.len() ==> old(out)@[i] == 0u8,
        ensures
            forall|i: u32| #[trigger] container_hunk(*final(self), i) == container_hunk(*old(self), i),
            forall|i: u32, l: nat| #[trigger] container_hunk_ok(*final(self), i, l) == container_hunk_ok(*old(self), i, l),
            final(out)@.len() == old(out)@.len(),
            r is Ok <==> container_hunk_ok(*old(self), index, old(out)@.len()),
            r is Ok ==> final(out)@ == container_hunk(*old(self), index),
            r is Err ==> r->Err_0 == BuildIOError::Format,
    {
        match self.chd.hunk(index) {
            Ok(mut hunk) => match hunk.read_hunk_in(&mut Vec::new(), out) {
                Ok(_) => Ok(()),
                Err(_) => Err(BuildIOError::Format),
            },
            Err(_) => Err(BuildIOError::Format),
        }
    }
}

/// The pattern of the file names of compressed hunk containers and diffs.
pub open spec fn is_container_name(path: Seq<char>) -> bool {
    let n = path.len();
    n >= 4 && path[n - 4] == '.' && (
        (path[n - 3] == 'c' && path[n - 2] == 'h' && path[n - 1] == 'd')
        || (path[n - 3] == 'd' && path[n - 2] == 'i' && path[n - 1] == 'f'))
}

/// Relies on `regex::Regex::new` and `regex::Regex::is_match` with the pattern
/// `\.(chd|dif)$`: whether `path` ends in `.chd` or `.dif`.
#[verifier::external_body]
fn container_name_matches(path: &str) -> (r: Option<bool>)
    ensures
        r == Some(is_container_name(path@)),
{
    match Regex::new(r"\.(chd|dif)$") {
        Ok(re) => Some(re.is_match(path)),
        Err(_) => None,
    }
}

/// The position of the last `c` in `s`; -1 where there is none.
pub open spec fn last_index(s: Seq<char>, c: char) -> int
    decreases s.len(),
{
    if s.len() == 0 {
        -1
    } else if s.last() == c {
        s.len() - 1
    } else {
        last_index(s.drop_last(), c)
    }
}

proof fn lemma_last_index_bound(s: Seq<char>, c: char)
    ensures
        -1 <= last_index(s, c) < s.len(),
        last_index(s, c) >= 0 ==> s[last_index(s, c)] == c,
    decreases s.len(),
{
    if s.len() > 0 && s.last() != c {
        lemma_last_index_bound(s.drop_last(), c);
    }
}

/// The directory part of a container path: what lies before its last `/`.
pub open spec fn dir_part(path: Seq<char>) -> Seq<char> {
    path.subrange(0, last_index(path, '/'))
}

/// The name of a container without its extension.
pub open spec fn stem_part(path: Seq<char>) -> Seq<char> {
    let name = path.subrange(last_index(path, '/') + 1, path.len() as int);
    let dot = last_index(name, '.');
    if dot > 0 { name.subrange(0, dot) } else { name }
}

/// Where the emulator keeps the diff of the container at `path`: in `diff`,
/// two directories up from the container's, named after the container with
/// `.dif`. None for a path without a directory part.
pub open spec fn diff_path_of(path: Seq<char>) -> Option<Seq<char>> {
    if last_index(path, '/') > 0 {
        Some(dir_part(path) + "/../../diff/"@ + stem_part(path) + ".dif"@)
    } else {
        None
    }
}

/// The ROM directory that a container inside the emulator's tree has two
/// directories up; a diff is kept only for such a container.
pub open spec fn rom_tree_of(path: Seq<char>) -> Option<Seq<char>> {
    if last_index(path, '/') > 0 {
        Some(dir_part(path) + "/../../roms"@)
    } else {
        None
    }
}

/// The position of the last `c` in `s`.
fn find_last(s: &str, c: char) -> (r: Option<usize>)
    ensures
        match r {
            Some(i) => i as int == last_index(s@, c),
            None => last_index(s@, c) == -1,
        },
{
    let n = s.unicode_len();
    let mut found: Option<usize> = None;
    let mut i: usize = 0;
    while i < n
        invariant
            n == s@.len(),
            i <= n,
            match found {
                Some(k) => k as int == last_index(s@.subrange(0, i as int), c),
                None => last_index(s@.subrange(0, i as int), c) == -1,
            },
        decreases n - i,
    {
        let ghost prefix = s@.subrange(0, i + 1);
        assert(prefix.drop_last() =~= s@.subrange(0, i as int));
        if s.get_char(i) == c {
            found = Some(i);
        }
        i = i + 1;
    }
    assert(s@.subrange(0, n as int) =~= s@);
    found
}

/// The diff path of the container at `chd_file_path` (see `diff_path_of`).
pub fn find_diff_file(chd_file_path: &str) -> (r: Option<String>)
    ensures
        image_text(r) == diff_path_of(chd_file_path@),
{
    proof {
        lemma_last_index_bound(chd_file_path@, '/');
    }
    match find_last(chd_file_path, '/') {
        Some(slash) if slash > 0 => {
            let n = chd_file_path.unicode_len();
            let name = chd_file_path.substring_char(slash + 1, n);
            proof {
                lemma_last_index_bound(name@, '.');
            }
            let stem = match find_last(name, '.') {
                Some(dot) if dot > 0 => name.substring_char(0, dot),
                _ => name,
            };
            let mut out = String::from_str(chd_file_path.substring_char(0, slash));
            out.append("/../../diff/");
            out.append(stem);
            out.append(".dif");
            Some(out)
        },
        _ => None,
    }
}

/// The ROM directory to look for before a diff is used (see `rom_tree_of`).
pub fn rom_tree_dir(chd_file_path: &str) -> (r: Option<String>)
    ensures
        image_text(r) == rom_tree_of(chd_file_path@),
{
    proof {
        lemma_last_index_bound(chd_file_path@, '/');
    }
    match find_last(chd_file_path, '/') {
        Some(slash) if slash > 0 => {
            let mut out = String::from_str(chd_file_path.substring_char(0, slash));
            out.append("/../../roms");
            Some(out)
        },
        _ => None,
    }
}

/// The view of an optional path.
pub open spec fn image_text(o: Option<String>) -> Option<Seq<char>> {
    match o {
        Some(v) => Some(v@),
        None => None,
    }
}

/// A buffered write into one hunk: `size` bytes of `data` from `hunk_offset`.
pub struct HunkWriteInfo {
    pub hunk_index: usize,
    pub hunk_offset: usize,
    pub size: usize,
    pub data: Vec<u8>,
}

/// The stream with the writes `ws` applied in order.
pub open spec fn apply_hunk_writes(base: Seq<u8>, ws: Seq<HunkWriteInfo>, hs: int) -> Seq<u8>
    decreases ws.len(),
{
    if ws.len() == 0 {
        base
    } else {
        let w = ws.last();
        splice(apply_hunk_writes(base, ws.drop_last(), hs), w.hunk_index * hs + w.hunk_offset, w.data@)
    }
}

/// Hunk `h` of a stream.
pub open spec fn hunk_slice(s: Seq<u8>, h: int, hs: int) -> Seq<u8> {
    s.subrange(h * hs, h * hs + hs)
}

/// The writes of `ws` into hunk `h` applied to that hunk's bytes.
pub open spec fn apply_local(hunk: Seq<u8>, ws: Seq<HunkWriteInfo>, h: int) -> Seq<u8>
    decreases ws.len(),
{
    if ws.len() == 0 {
        hunk
    } else {
        let w = ws.last();
        let prev = apply_local(hunk, ws.drop_last(), h);
        if w.hunk_index == h {
            splice(prev, w.hunk_offset as int, w.data@)
        } else {
            prev
        }
    }
}

/// Every hunk of a container that `k` bytes from `pos` cover decodes.
pub open spec fn hunks_ok(c: HunkContainer, hs: int, n: int, pos: int, k: int) -> bool {
    forall|h: u32| h < n && h * hs < pos + k && pos < h * hs + hs ==> #[trigger] container_hunk_ok(c, h, hs as nat)
}

proof fn lemma_hunks_ok_at(c: HunkContainer, hs: int, n: int, pos: int, k: int, h: u32)
    requires
        hunks_ok(c, hs, n, pos, k),
        h < n,
        h * hs < pos + k,
        pos < h * hs + hs,
    ensures
        container_hunk_ok(c, h, hs as nat),
{
}

/// Write `w` lies inside one of `n` hunks of `hs` bytes.
pub open spec fn confined(w: HunkWriteInfo, hs: int, n: int) -> bool {
    &&& w.hunk_index < n
    &&& w.hunk_offset + w.data@.len() <= hs
    &&& w.size == w.data@.len()
}

/// The stream of a container of `n` hunks of `hs` bytes.
pub open spec fn container_stream(c: HunkContainer, hs: int, n: int) -> Seq<u8> {
    Seq::new((n * hs) as nat, |i: int| container_hunk(c, (i / hs) as u32)[i % hs])
}

proof fn lemma_hunk_range(h: int, t: int, hs: int)
    requires
        0 <= t < hs,
        0 <= h,
    ensures
        (h * hs + t) / hs == h,
        (h * hs + t) % hs == t,
{
    vstd::arithmetic::div_mod::lemma_fundamental_div_mod_converse(h * hs + t, hs, h, t);
}

/// Hunk `h` of a stream after a write confined to one hunk.
proof fn lemma_slice_after_write(s: Seq<u8>, w: HunkWriteInfo, h: int, hs: int, n: int)
    requires
        hs > 0,
        0 <= h < n,
        s.len() == n * hs,
        confined(w, hs, n),
    ensures
        hunk_slice(splice(s, w.hunk_index * hs + w.hunk_offset, w.data@), h, hs) == if w.hunk_index == h {
            splice(hunk_slice(s, h, hs), w.hunk_offset as int, w.data@)
        } else {
            hunk_slice(s, h, hs)
        },
        splice(s, w.hunk_index * hs + w.hunk_offset, w.data@).len() == s.len(),
{
    let hi = w.hunk_index as int;
    let p = hi * hs + w.hunk_offset;
    let d = w.data@;
    assert(hi * hs + hs <= n * hs) by (nonlinear_arith)
        requires hi < n, hs > 0;
    assert(h * hs + hs <= n * hs) by (nonlinear_arith)
        requires h < n, hs > 0;
    assert(0 <= h * hs) by (nonlinear_arith)
        requires 0 <= h, hs > 0;
    assert(0 <= hi * hs) by (nonlinear_arith)
        requires 0 <= hi, hs > 0;
    let s2 = splice(s, p, d);
    assert(s2.len() == s.len());
    if hi == h {
        assert(hunk_slice(s2, h, hs) =~= splice(hunk_slice(s, h, hs), w.hunk_offset as int, d));
    } else {
        if hi < h {
            assert(hi * hs + hs <= h * hs) by (nonlinear_arith)
                requires hi < h, hs > 0;
        } else {
            assert(h * hs + hs <= hi * hs) by (nonlinear_arith)
                requires h < hi, hs > 0;
        }
        assert(hunk_slice(s2, h, hs) =~= hunk_slice(s, h, hs));
    }
}

/// Hunk `h` of a stream after confined writes is that hunk with its own writes.
proof fn lemma_slice_after_writes(base: Seq<u8>, ws: Seq<HunkWriteInfo>, h: int, hs: int, n: int)
    requires
        hs > 0,
        0 <= h < n,
        base.len() == n * hs,
        forall|i: int| 0 <= i < ws.len() ==> confined(#[trigger] ws[i], hs, n),
    ensures
        hunk_slice(apply_hunk_writes(base, ws, hs), h, hs) == apply_local(hunk_slice(base, h, hs), ws, h),
        apply_hunk_writes(base, ws, hs).len() == base.len(),
    decreases ws.len(),
{
    if ws.len() > 0 {
        let rest = ws.drop_last();
        assert forall|i: int| 0 <= i < rest.len() implies confined(#[trigger] rest[i], hs, n) by {
            assert(rest[i] == ws[i]);
        }
        lemma_slice_after_writes(base, rest, h, hs, n);
        assert(confined(ws[ws.len() - 1], hs, n));
        lemma_slice_after_write(apply_hunk_writes(base, rest, hs), ws.last(), h, hs, n);
    }
}

proof fn lemma_apply_writes_concat(base: Seq<u8>, a: Seq<HunkWriteInfo>, b: Seq<HunkWriteInfo>, hs: int)
    ensures
        apply_hunk_writes(base, a + b, hs) == apply_hunk_writes(apply_hunk_writes(base, a, hs), b, hs),
    decreases b.len(),
{
    if b.len() == 0 {
        assert(a + b =~= a);
    } else {
        assert((a + b).drop_last() =~= a + b.drop_last());
        assert((a + b).last() == b.last());
        lemma_apply_writes_concat(base, a, b.drop_last(), hs);
    }
}

/// Writing `a` then `b` right after it is writing `a + b`.
proof fn lemma_splice_concat(s: Seq<u8>, p: int, a: Seq<u8>, b: Seq<u8>)
    requires
        0 <= p,
        p + a.len() + b.len() <= s.len(),
    ensures
        splice(splice(s, p, a), p + a.len(), b) == splice(s, p, a + b),
{
    assert(splice(splice(s, p, a), p + a.len(), b) =~= splice(s, p, a + b));
}

/// The container's stream, hunk by hunk.
proof fn lemma_container_slice(c: HunkContainer, h: int, hs: int, n: int)
    requires
        hs > 0,
        0 <= h < n,
        container_hunk(c, h as u32).len() == hs,
        h < 0x1_0000_0000,
    ensures
        hunk_slice(container_stream(c, hs, n), h, hs) == container_hunk(c, h as u32),
{
    assert(h * hs + hs <= n * hs) by (nonlinear_arith)
        requires h < n, hs > 0;
    assert(0 <= h * hs) by (nonlinear_arith)
        requires 0 <= h, hs > 0;
    assert forall|t: int| 0 <= t < hs implies #[trigger] hunk_slice(container_stream(c, hs, n), h, hs)[t] == container_hunk(c, h as u32)[t] by {
        lemma_hunk_range(h, t, hs);
    }
    assert(hunk_slice(container_stream(c, hs, n), h, hs) =~= container_hunk(c, h as u32));
}

pub const CHD_HEADER_SIZE: u64 = 0x7c;
pub const CHD_METADATA_SIZE: u64 = 0x10;
pub const CHD_HEADER_VERSION: u32 = 5;
/// `GDDD`: hard-disk geometry metadata.
pub const CHD_METADATA_CHUNK_ID: u32 = 0x47444444;
pub const CHD_METADATA_SECS: u64 = 63;
pub const CHD_METADATA_HEADS: u64 = 16;

/// `MComprHD`
pub open spec fn chd_magic() -> Seq<u8> {
    seq![77u8, 67u8, 111u8, 109u8, 112u8, 114u8, 72u8, 68u8]
}

/// The decimal digits of `n`.
pub open spec fn decimal(n: nat) -> Seq<u8>
    decreases n,
{
    if n < 10 {
        seq![(48 + n) as u8]
    } else {
        decimal(n / 10) + seq![(48 + n % 10) as u8]
    }
}

/// `CYLS:`
pub open spec fn cyls_label() -> Seq<u8> {
    seq![67u8, 89u8, 76u8, 83u8, 58u8]
}

/// `,HEADS:16,SECS:63,BPS:`
pub open spec fn geometry_labels() -> Seq<u8> {
    seq![44u8, 72u8, 69u8, 65u8, 68u8, 83u8, 58u8, 49u8, 54u8, 44u8, 83u8, 69u8, 67u8, 83u8, 58u8, 54u8, 51u8, 44u8, 66u8, 80u8, 83u8, 58u8]
}

/// The geometry text of a disk of `size` bytes with `unit` bytes per sector.
pub open spec fn geometry_text(size: u64, unit: u32) -> Seq<u8> {
    cyls_label() + decimal((size as int / (CHD_METADATA_HEADS * CHD_METADATA_SECS * unit as u64) as int) as nat) + geometry_labels() + decimal(unit as nat)
}

pub open spec fn be_bytes_u64(v: u64) -> Seq<u8> {
    be_bytes_u32((v / 0x100000000) as u32) + be_bytes_u32((v % 0x100000000) as u32)
}

/// The header of a diff: uncompressed version 5, overlaying the container
/// whose hash is `parent`.
pub open spec fn diff_header(size: u64, meta_offset: u64, hs: u32, unit: u32, parent: Seq<u8>) -> Seq<u8> {
    chd_magic() + be_bytes_u32(CHD_HEADER_SIZE as u32) + be_bytes_u32(CHD_HEADER_VERSION) + be_bytes_u32(0) + be_bytes_u32(0)
        + be_bytes_u32(0) + be_bytes_u32(0) + be_bytes_u64(size) + be_bytes_u64(CHD_HEADER_SIZE) + be_bytes_u64(meta_offset)
        + be_bytes_u32(hs) + be_bytes_u32(unit) + Seq::new(20, |i: int| 0u8) + Seq::new(20, |i: int| 0u8) + parent
}

/// The metadata chunk header for a text of `len` bytes and its terminator.
pub open spec fn metadata_chunk(len: nat) -> Seq<u8> {
    be_bytes_u32(CHD_METADATA_CHUNK_ID) + seq![1u8, 0u8, (((len + 1) / 0x100) % 0x100) as u8, ((len + 1) % 0x100) as u8]
        + Seq::new(8, |i: int| 0u8)
}

/// The big-endian bytes of a hunk map.
pub open spec fn map_bytes(m: Seq<u32>) -> Seq<u8>
    decreases m.len(),
{
    if m.len() == 0 {
        Seq::empty()
    } else {
        map_bytes(m.drop_last()) + be_bytes_u32(m.last())
    }
}

/// Some write of `ws` falls in hunk `h`.
pub open spec fn touched(ws: Seq<HunkWriteInfo>, h: int) -> bool {
    exists|i: int| 0 <= i < ws.len() && (#[trigger] ws[i]).hunk_index == h
}

/// The hunk-map entry of hunk `h` in the diff bytes `prior`: zero where
/// `prior` is not a version 5 header or its map does not reach `h`.
pub open spec fn prior_entry(prior: Seq<u8>, h: int) -> u32 {
    if prior.len() >= CHD_HEADER_SIZE && be_u32_at(prior, 12) == CHD_HEADER_VERSION
        && be_u64_at(prior, 40) + 4 * h + 4 <= prior.len() {
        be_u32_at(prior, be_u64_at(prior, 40) + 4 * h)
    } else {
        0
    }
}

/// Hunk `h` moves forward from the prior diff: not written now, held there.
pub open spec fn carried(ws: Seq<HunkWriteInfo>, prior: Seq<u8>, h: int) -> bool {
    !touched(ws, h) && prior_entry(prior, h) != 0
}

pub open spec fn count_touched(ws: Seq<HunkWriteInfo>, h: nat) -> nat
    decreases h,
{
    if h == 0 {
        0
    } else {
        count_touched(ws, (h - 1) as nat) + if touched(ws, h - 1) { 1nat } else { 0nat }
    }
}

pub open spec fn count_carried(ws: Seq<HunkWriteInfo>, prior: Seq<u8>, h: nat) -> nat
    decreases h,
{
    if h == 0 {
        0
    } else {
        count_carried(ws, prior, (h - 1) as nat) + if carried(ws, prior, h - 1) { 1nat } else { 0nat }
    }
}

/// The hunk map of a new diff whose hunks start at slot `start`: written
/// hunks first, then the hunks carried forward, each in hunk order.
pub open spec fn slot_map(ws: Seq<HunkWriteInfo>, prior: Seq<u8>, count: nat, start: int) -> Seq<u32> {
    Seq::new(count, |h: int|
        if touched(ws, h) {
            (start + count_touched(ws, h as nat)) as u32
        } else if carried(ws, prior, h) {
            (start + count_touched(ws, count) + count_carried(ws, prior, h as nat)) as u32
        } else {
            0u32
        })
}

/// Hunk slot `e` of the prior diff, zero past its end.
pub open spec fn prior_hunk(prior: Seq<u8>, e: u32, hs: int) -> Seq<u8> {
    Seq::new(hs as nat, |t: int| if e * hs + t < prior.len() { prior[e * hs + t] } else { 0u8 })
}

/// The written hunks among the first `h`, as `staged` holds them.
pub open spec fn touched_payload(staged: Seq<u8>, ws: Seq<HunkWriteInfo>, hs: int, h: nat) -> Seq<u8>
    decreases h,
{
    if h == 0 {
        Seq::empty()
    } else {
        touched_payload(staged, ws, hs, (h - 1) as nat) + if touched(ws, h - 1) { hunk_slice(staged, h - 1, hs) } else { Seq::empty() }
    }
}

/// The carried hunks among the first `h`, as the prior diff holds them.
pub open spec fn carried_payload(prior: Seq<u8>, ws: Seq<HunkWriteInfo>, hs: int, h: nat) -> Seq<u8>
    decreases h,
{
    if h == 0 {
        Seq::empty()
    } else {
        carried_payload(prior, ws, hs, (h - 1) as nat) + if carried(ws, prior, h - 1) { prior_hunk(prior, prior_entry(prior, h - 1), hs) } else { Seq::empty() }
    }
}

/// A diff of `count` hunks of `hs` bytes with a geometry text of
/// `text_len` bytes fits its 32-bit hunk slots and 16-bit text length.
pub open spec fn diff_fits(count: nat, hs: int, text_len: nat) -> bool {
    text_len <= 0xfffe && data_offset_of(count, text_len, hs) / hs + count <= 0xffff_ffff
}

/// Where the geometry metadata of a diff of `count` hunks starts.
pub open spec fn meta_offset_of(count: nat) -> int {
    CHD_HEADER_SIZE + count * 4
}

/// Where the hunks of a diff start: after the metadata, aligned to a hunk.
pub open spec fn data_offset_of(count: nat, text_len: nat, hs: int) -> int {
    let meta_end = meta_offset_of(count) + CHD_METADATA_SIZE + text_len + 1;
    ((meta_end + hs - 1) / hs) * hs
}

/// The whole diff image written for the writes `ws` of a container of
/// `count` hunks of `hs` bytes, whose stream with those writes is `staged`.
pub open spec fn diff_image(size: u64, hs: u32, unit: u32, count: nat, parent: Seq<u8>, staged: Seq<u8>, ws: Seq<HunkWriteInfo>, prior: Seq<u8>) -> Seq<u8> {
    let text = geometry_text(size, unit);
    let meta_end = meta_offset_of(count) + CHD_METADATA_SIZE + text.len() + 1;
    let data_off = data_offset_of(count, text.len(), hs as int);
    diff_header(size, meta_offset_of(count) as u64, hs, unit, parent)
        + map_bytes(slot_map(ws, prior, count, data_off / hs as int))
        + metadata_chunk(text.len()) + text + seq![0u8] + Seq::new((data_off - meta_end) as nat, |i: int| 0u8)
        + touched_payload(staged, ws, hs as int, count) + carried_payload(prior, ws, hs as int, count)
}

/// A SHA-1 hash as a container header stores it.
#[derive(Debug, Clone, Copy)]
pub struct Sha1Hash {
    pub hash: [u8; 20],
}

/// The header of a version 5 container, big-endian.
#[derive(Debug, Clone, Copy)]
pub struct CHDHeaderV5 {
    pub magic: [u8; 8],
    pub header_size: u32,
    pub header_version: u32,
    pub compressor: [u32; 4],
    pub uncompressed_size: u64,
    pub hunk_map_offset: u64,
    pub disk_metadata_offset: u64,
    pub hunk_size_bytes: u32,
    pub sector_size_bytes: u32,
    /// The raw data hash, the hash of data and metadata, the parent's hash.
    pub sha1: [Sha1Hash; 3],
}

/// A 24-bit big-endian length.
#[derive(Debug, Clone, Copy)]
pub struct DataU24 {
    pub ms: u8,
    pub ls: u16,
}

/// The header of a metadata chunk, big-endian.
#[derive(Debug, Clone, Copy)]
pub struct CHDChunkMetadata {
    pub chunk_id: u32,
    pub flags: u8,
    pub size: DataU24,
    pub next_offset: u64,
}

/// The 124 bytes of a version 5 header.
pub open spec fn header_v5_bytes(h: CHDHeaderV5) -> Seq<u8> {
    h.magic@ + be_bytes_u32(h.header_size) + be_bytes_u32(h.header_version) + be_bytes_u32(h.compressor@[0])
        + be_bytes_u32(h.compressor@[1]) + be_bytes_u32(h.compressor@[2]) + be_bytes_u32(h.compressor@[3])
        + be_bytes_u64(h.uncompressed_size) + be_bytes_u64(h.hunk_map_offset) + be_bytes_u64(h.disk_metadata_offset)
        + be_bytes_u32(h.hunk_size_bytes) + be_bytes_u32(h.sector_size_bytes) + h.sha1@[0].hash@ + h.sha1@[1].hash@
        + h.sha1@[2].hash@
}

/// The 16 bytes of a metadata chunk header.
pub open spec fn chunk_metadata_bytes(m: CHDChunkMetadata) -> Seq<u8> {
    be_bytes_u32(m.chunk_id) + seq![m.flags, m.size.ms, (m.size.ls / 0x100) as u8, (m.size.ls % 0x100) as u8]
        + be_bytes_u64(m.next_offset)
}

/// Appends the bytes of `a`.
fn push_bytes<const N: usize>(out: &mut Vec<u8>, a: &[u8; N])
    ensures
        final(out)@ == old(out)@ + a@,
{
    let ghost start = out@;
    let mut k: usize = 0;
    while k < N
        invariant
            k <= N,
            a@.len() == N,
            start == old(out)@,
            out@ == start + a@.subrange(0, k as int),
        decreases N - k,
    {
        out.push(a[k]);
        k = k + 1;
        assert(out@ =~= start + a@.subrange(0, k as int));
    }
    assert(a@.subrange(0, N as int) =~= a@);
}

impl CHDHeaderV5 {
    pub fn to_be_bytes(&self) -> (r: Vec<u8>)
        ensures
            r@ == header_v5_bytes(*self),
    {
        let mut out: Vec<u8> = Vec::new();
        push_bytes(&mut out, &self.magic);
        crate::bytes::push_be_u32(&mut out, self.header_size);
        crate::bytes::push_be_u32(&mut out, self.header_version);
        crate::bytes::push_be_u32(&mut out, self.compressor[0]);
        crate::bytes::push_be_u32(&mut out, self.compressor[1]);
        crate::bytes::push_be_u32(&mut out, self.compressor[2]);
        crate::bytes::push_be_u32(&mut out, self.compressor[3]);
        crate::bytes::push_be_u64(&mut out, self.uncompressed_size);
        crate::bytes::push_be_u64(&mut out, self.hunk_map_offset);
        crate::bytes::push_be_u64(&mut out, self.disk_metadata_offset);
        crate::bytes::push_be_u32(&mut out, self.hunk_size_bytes);
        crate::bytes::push_be_u32(&mut out, self.sector_size_bytes);
        push_bytes(&mut out, &self.sha1[0].hash);
        push_bytes(&mut out, &self.sha1[1].hash);
        push_bytes(&mut out, &self.sha1[2].hash);
        out
    }
}

impl CHDChunkMetadata {
    pub fn to_be_bytes(&self) -> (r: Vec<u8>)
        ensures
            r@ == chunk_metadata_bytes(*self),
    {
        let mut out: Vec<u8> = Vec::new();
        crate::bytes::push_be_u32(&mut out, self.chunk_id);
        out.push(self.flags);
        out.push(self.size.ms);
        out.push((self.size.ls / 0x100) as u8);
        out.push((self.size.ls % 0x100) as u8);
        crate::bytes::push_be_u64(&mut out, self.next_offset);
        assert(out@ =~= chunk_metadata_bytes(*self));
        out
    }
}

/// Appends the decimal digits of `n`.
fn push_decimal(out: &mut Vec<u8>, n: u64)
    ensures
        final(out)@ == old(out)@ + decimal(n as nat),
    decreases n,
{
    if n >= 10 {
        push_decimal(out, n / 10);
    }
    out.push((48 + n % 10) as u8);
    proof {
        if n >= 10 {
            assert(final(out)@ =~= old(out)@ + decimal(n as nat));
        } else {
            assert(final(out)@ =~= old(out)@ + decimal(n as nat));
        }
    }
}

/// Appends `k` zero bytes.
fn push_zeros(out: &mut Vec<u8>, k: usize)
    ensures
        final(out)@ == old(out)@ + Seq::new(k as nat, |i: int| 0u8),
{
    let mut z = filled(0, k);
    out.append(&mut z);
}

/// Appends the bytes of `src`.
fn push_all(out: &mut Vec<u8>, src: &Vec<u8>)
    ensures
        final(out)@ == old(out)@ + src@,
{
    let mut c = src.clone();
    assert(c@ == src@);
    out.append(&mut c);
}

/// The hunk-map entry of hunk `h` in the prior diff bytes.
fn prior_entry_of(prior: &Vec<u8>, h: usize) -> (r: u32)
    requires
        h < 0x1_0000_0000,
    ensures
        r == prior_entry(prior@, h as int),
{
    let len = prior.len();
    if len < CHD_HEADER_SIZE as usize {
        return 0;
    }
    if read_be_u32(prior, 12) != CHD_HEADER_VERSION {
        return 0;
    }
    let map_offset = read_be_u64(prior, 40);
    if map_offset > len as u64 || (len as u64 - map_offset) < 4 * (h as u64) + 4 {
        return 0;
    }
    read_be_u32(prior, (map_offset + 4 * (h as u64)) as usize)
}

/// Hunk slot `e` of the prior diff, zero past its end.
fn prior_hunk_of(prior: &Vec<u8>, e: u32, hs: usize) -> (r: Vec<u8>)
    requires
        hs <= MAX_HUNK_SIZE,
    ensures
        r@ == prior_hunk(prior@, e, hs as int),
{
    let mut out: Vec<u8> = Vec::new();
    let mut t: usize = 0;
    while t < hs
        invariant
            t <= hs,
            hs <= MAX_HUNK_SIZE,
            out@ == prior_hunk(prior@, e, hs as int).subrange(0, t as int),
        decreases hs - t,
    {
        assert((e as u64) * (hs as u64) <= 0xffff_ffff * 0x100000) by (nonlinear_arith)
            requires e <= 0xffff_ffff, hs <= 0x100000;
        let idx: u64 = (e as u64) * (hs as u64) + t as u64;
        let b = if idx < prior.len() as u64 { prior[idx as usize] } else { 0 };
        out.push(b);
        t = t + 1;
        assert(out@ =~= prior_hunk(prior@, e, hs as int).subrange(0, t as int));
    }
    assert(out@ =~= prior_hunk(prior@, e, hs as int));
    out
}

/// The geometry text of a disk of `size` bytes with `unit` bytes per sector.
fn geometry_text_of(size: u64, unit: u32) -> (r: Vec<u8>)
    requires
        unit > 0,
    ensures
        r@ == geometry_text(size, unit),
{
    let mut t: Vec<u8> = Vec::new();
    t.push(67); t.push(89); t.push(76); t.push(83); t.push(58);
    assert(t@ =~= cyls_label());
    assert(1008 <= CHD_METADATA_HEADS * CHD_METADATA_SECS * unit as u64 <= 1008 * 0xffff_ffff) by (nonlinear_arith)
        requires 1 <= unit <= 0xffff_ffffu32;
    let cylinder_bytes: u64 = CHD_METADATA_HEADS * CHD_METADATA_SECS * unit as u64;
    push_decimal(&mut t, size / cylinder_bytes);
    let ghost a = t@;
    let labels: [u8; 22] = [44, 72, 69, 65, 68, 83, 58, 49, 54, 44, 83, 69, 67, 83, 58, 54, 51, 44, 66, 80, 83, 58];
    assert(labels@ =~= geometry_labels());
    let mut i: usize = 0;
    while i < 22
        invariant
            i <= 22,
            labels@ == geometry_labels(),
            t@ == a + geometry_labels().subrange(0, i as int),
        decreases 22 - i,
    {
        t.push(labels[i]);
        i = i + 1;
        assert(t@ =~= a + geometry_labels().subrange(0, i as int));
    }
    assert(geometry_labels().subrange(0, 22) =~= geometry_labels());
    push_decimal(&mut t, unit as u64);
    t
}

/// The largest hunk handled (1 MiB): one hunk is held decoded while it is
/// read, and every written hunk while a diff is laid out. Containers for
/// these disks use hunks of a few KiB.
pub const MAX_HUNK_SIZE: u32 = 0x100000;

/// A compressed hunk container, with the diff that overlays it, held in
/// memory. Reads decompress one hunk at a time into a retained buffer; writes
/// are buffered per hunk and `commit` lays them into a new diff image.
pub struct CompressedHunkDiskIO {
    file_path: String,
    collation: BuildIODataCollation,
    size: u64,
    chd: HunkContainer,
    hunk_size: usize,
    hunk_count: usize,
    unit_bytes: u32,
    parent_sha1: [u8; 20],
    prior_diff: Option<Vec<u8>>,
    diff_image: Option<Vec<u8>>,
    position: usize,
    current_hunk_index: usize,
    current_hunk_read: bool,
    current_hunk: Vec<u8>,
    applied_hunk_writes: Vec<HunkWriteInfo>,
    pending_hunk_writes: Vec<HunkWriteInfo>,
}

impl CompressedHunkDiskIO {
    pub closed spec fn container(&self) -> HunkContainer {
        self.chd
    }

    pub closed spec fn hunk_bytes(&self) -> int {
        self.hunk_size as int
    }

    pub closed spec fn hunks(&self) -> int {
        self.hunk_count as int
    }

    pub closed spec fn size_spec(&self) -> u64 {
        self.size
    }

    pub closed spec fn sector_bytes(&self) -> u32 {
        self.unit_bytes
    }

    /// The hash of the container that a diff of this handle overlays.
    pub closed spec fn parent_hash(&self) -> Seq<u8> {
        self.parent_sha1@
    }

    /// The diff image laid out by the last commit that had writes.
    pub closed spec fn last_diff(&self) -> Option<Seq<u8>> {
        image_view(self.diff_image)
    }

    /// The diff of this handle fits its slot numbers and text length.
    pub closed spec fn diff_fits_spec(&self) -> bool {
        diff_fits(self.hunk_count as nat, self.hunk_size as int, geometry_text(self.size, self.unit_bytes).len())
    }

    /// Every hunk that the writes through this handle touch decodes.
    pub closed spec fn touched_hunks_ok(&self) -> bool {
        forall|h: u32| h < self.hunk_count && touched(self.all_writes(), h as int)
            ==> #[trigger] container_hunk_ok(self.chd, h, self.hunk_size as nat)
    }

    /// Both handles' containers decode every hunk alike.
    pub closed spec fn decodes_like(&self, prev: CompressedHunkDiskIO) -> bool {
        forall|i: u32, l: nat| #[trigger] container_hunk_ok(self.chd, i, l) == container_hunk_ok(prev.chd, i, l)
    }

    pub closed spec fn pending_count(&self) -> nat {
        self.pending_hunk_writes@.len()
    }

    /// The stream of the container with the committed writes.
    pub closed spec fn committed(&self) -> Seq<u8> {
        apply_hunk_writes(container_stream(self.chd, self.hunk_size as int, self.hunk_count as int), self.applied_hunk_writes@, self.hunk_size as int)
    }

    proof fn lemma_stream_len(&self)
        requires
            self.inv(),
        ensures
            self.stream().len() == self.size,
            self.staged().len() == self.size,
    {
        let hs = self.hunk_size as int;
        let n = self.hunk_count as int;
        assert(container_stream(self.chd, hs, n).len() == n * hs);
        lemma_writes_len(container_stream(self.chd, hs, n), self.applied_hunk_writes@, hs, n);
        lemma_writes_len(self.committed(), self.pending_hunk_writes@, hs, n);
    }

    /// Opens a container from its bytes `image`, overlaid by the diff bytes
    /// `diff` where there is one. The stream is the whole disk that the top
    /// header (the diff's, else the container's) gives, which must be a whole
    /// number of hunks (a disk of cylinders of 16 heads of 63 sectors is).
    #[verifier::rlimit(80)]
    pub fn open(file_path: String, collation: Option<BuildIODataCollation>, image: Vec<u8>, diff: Option<Vec<u8>>) -> (r: Result<CompressedHunkDiskIO, BuildIOError>)
        ensures
            ({
                let top = match diff { Some(d) => d@, None => image@ };
                let parent = match diff { Some(d) => Some(image@), None => None };
                let headers_ok = v5_header_ok(image@) && (diff matches Some(d) ==> v5_header_ok(d@) && same_geometry(d@, image@));
                let hs = header_hunk_bytes(top) as int;
                let n = header_logical_bytes(top) as int / hs;
                let whole = header_logical_bytes(top) as int % hs == 0;
                &&& r is Ok <==> hunk_open_ok(image@, image_view(diff))
                &&& !headers_ok ==> r == Err::<CompressedHunkDiskIO, BuildIOError>(BuildIOError::Format)
                &&& headers_ok && (n >= 0x1_0000_0000 || !whole) ==> r == Err::<CompressedHunkDiskIO, BuildIOError>(BuildIOError::Format)
                &&& headers_ok && n < 0x1_0000_0000 && whole && n * hs > usize::MAX ==> r == Err::<CompressedHunkDiskIO, BuildIOError>(BuildIOError::OutOfRange)
                &&& headers_ok && n < 0x1_0000_0000 && whole && n * hs <= usize::MAX ==> (r is Ok <==> container_opens(top, parent))
                &&& headers_ok && n < 0x1_0000_0000 && whole && n * hs <= usize::MAX && !container_opens(top, parent)
                    ==> r == Err::<CompressedHunkDiskIO, BuildIOError>(BuildIOError::Format)
                &&& r is Ok ==> ({
                    let io = r->Ok_0;
                    &&& io.inv() && io.position() == 0 && io.path_spec() == file_path@
                    &&& io.collation_spec() == (match collation { Some(c) => c, None => BuildIODataCollation::Raw })
                    &&& io.hunk_bytes() == hs && io.hunks() == n
                    &&& io.stream().len() == header_logical_bytes(top)
                    &&& io.stream() == container_stream(io.container(), io.hunk_bytes(), io.hunks())
                    &&& io.staged() == io.stream()
                    &&& io.pending_count() == 0
                    &&& forall|p: int, k: int| #[trigger] io.read_ok(p, k)
                        == hunks_ok(io.container(), hs, n, p, span(n * hs, p, k))
                })
            }),
    {
        let c = match collation {
            Some(c) => c,
            None => BuildIODataCollation::Raw,
        };
        if !header_checks(&image) {
            return Err(BuildIOError::Format);
        }
        let (top, parent) = match &diff {
            Some(d) => {
                if !header_checks(d) || read_be_u32(d, 56) != read_be_u32(&image, 56) || read_be_u32(d, 60) != read_be_u32(&image, 60) {
                    return Err(BuildIOError::Format);
                }
                (d.clone(), Some(image))
            },
            None => (image, None),
        };
        let hs = read_be_u32(&top, 56);
        let unit_bytes = read_be_u32(&top, 60);
        let logical = read_be_u64(&top, 32);
        let n64 = logical / (hs as u64);
        // the stream is the whole disk: a size that ends inside a hunk is refused
        if n64 >= 0x1_0000_0000 || logical % (hs as u64) != 0 {
            return Err(BuildIOError::Format);
        }
        proof {
            vstd::arithmetic::div_mod::lemma_fundamental_div_mod(logical as int, hs as int);
        }
        if n64 > (usize::MAX / (hs as usize)) as u64 {
            assert(n64 * hs > usize::MAX) by (nonlinear_arith)
                requires n64 > usize::MAX as int / hs as int, hs > 0;
            return Err(BuildIOError::OutOfRange);
        }
        let n = n64 as usize;
        let hsz = hs as usize;
        assert(n * hsz <= usize::MAX) by (nonlinear_arith)
            requires n <= usize::MAX / hsz, hsz > 0;
        // the overlaid container's hash: the parent hash of a diff, else the
        // container's own hash
        let mut parent_sha1 = [0u8; 20];
        let mut has_parent = false;
        let mut k: usize = 0;
        while k < 20
            invariant
                k <= 20,
                top@.len() >= CHD_HEADER_SIZE,
            decreases 20 - k,
        {
            parent_sha1[k] = top[104 + k];
            if top[104 + k] != 0 {
                has_parent = true;
            }
            k = k + 1;
        }
        if !has_parent {
            let mut k: usize = 0;
            while k < 20
                invariant
                    k <= 20,
                    top@.len() >= CHD_HEADER_SIZE,
                decreases 20 - k,
            {
                parent_sha1[k] = top[84 + k];
                k = k + 1;
            }
        }
        let chd = HunkContainer::open(top, parent)?;
        let prior_diff = match diff {
            Some(d) => Some(d),
            None => None,
        };
        let io = CompressedHunkDiskIO {
            file_path,
            collation: c,
            size: (n * hsz) as u64,
            chd,
            hunk_size: hsz,
            hunk_count: n,
            unit_bytes,
            parent_sha1,
            prior_diff,
            diff_image: None,
            position: 0,
            current_hunk_index: 0,
            current_hunk_read: false,
            current_hunk: Vec::new(),
            applied_hunk_writes: Vec::new(),
            pending_hunk_writes: Vec::new(),
        };
        proof {
            io.lemma_stream_len();
        }
        Ok(io)
    }

    /// The diff image laid out by the last `commit` that had writes to lay
    /// out; the caller stores it in place of the prior diff.
    pub fn diff_bytes(&self) -> (r: Option<Vec<u8>>)
        ensures
            image_view(r) == self.last_diff(),
    {
        match &self.diff_image {
            Some(d) => Some(d.clone()),
            None => None,
        }
    }

    /// Hunk `h` as the committed stream holds it, into the retained buffer.
    fn load_hunk(&mut self, h: usize) -> (r: Result<(), BuildIOError>)
        requires
            old(self).inv(),
            h < old(self).hunk_count,
        ensures
            final(self).inv(),
            final(self).stream() == old(self).stream(),
            final(self).staged() == old(self).staged(),
            final(self).position == old(self).position,
            final(self).collation == old(self).collation,
            final(self).file_path == old(self).file_path,
            final(self).hunk_size == old(self).hunk_size,
            final(self).hunk_count == old(self).hunk_count,
            final(self).size == old(self).size,
            final(self).applied_hunk_writes == old(self).applied_hunk_writes,
            final(self).pending_hunk_writes == old(self).pending_hunk_writes,
            forall|i: u32, l: nat| #[trigger] container_hunk_ok(final(self).chd, i, l) == container_hunk_ok(old(self).chd, i, l),
            container_hunk_ok(old(self).chd, h as u32, old(self).hunk_size as nat) ==> r is Ok,
            r is Ok ==> final(self).current_hunk_read && final(self).current_hunk_index == h,
    {
        let hs = self.hunk_size;
        let mut out = filled(0, hs);
        let ghost c0 = self.chd;
        self.current_hunk_read = false;
        let res = self.chd.read_hunk(h as u32, &mut out);
        assert(container_stream(self.chd, hs as int, self.hunk_count as int) =~= container_stream(c0, hs as int, self.hunk_count as int));
        if res.is_err() {
            return res;
        }
        proof {
            lemma_container_slice(c0, h as int, hs as int, self.hunk_count as int);
        }
        let ghost hunk0 = out@;
        let mut i: usize = 0;
        while i < self.applied_hunk_writes.len()
            invariant
                self.inv(),
                self.hunk_size == old(self).hunk_size,
                self.hunk_count == old(self).hunk_count,
                self.size == old(self).size,
                self.applied_hunk_writes == old(self).applied_hunk_writes,
                self.pending_hunk_writes == old(self).pending_hunk_writes,
                self.position == old(self).position,
                self.collation == old(self).collation,
                self.file_path == old(self).file_path,
                self.stream() == old(self).stream(),
                self.staged() == old(self).staged(),
                forall|i: u32, l: nat| #[trigger] container_hunk_ok(self.chd, i, l) == container_hunk_ok(old(self).chd, i, l),
                hunk0 == hunk_slice(container_stream(self.chd, hs as int, self.hunk_count as int), h as int, hs as int),
                !self.current_hunk_read,
                h < self.hunk_count,
                hs == self.hunk_size,
                out@.len() == hs,
                i <= self.applied_hunk_writes@.len(),
                out@ == apply_local(hunk0, self.applied_hunk_writes@.subrange(0, i as int), h as int),
            decreases self.applied_hunk_writes@.len() - i,
        {
            let w = &self.applied_hunk_writes[i];
            proof {
                assert(self.applied_hunk_writes@.subrange(0, i + 1).drop_last() =~= self.applied_hunk_writes@.subrange(0, i as int));
                assert(confined(self.applied_hunk_writes@[i as int], hs as int, self.hunk_count as int));
            }
            if w.hunk_index == h {
                image_write(&mut out, w.hunk_offset, &w.data);
            }
            i = i + 1;
        }
        proof {
            assert(self.applied_hunk_writes@.subrange(0, self.applied_hunk_writes@.len() as int) =~= self.applied_hunk_writes@);
            lemma_slice_after_writes(container_stream(self.chd, hs as int, self.hunk_count as int), self.applied_hunk_writes@, h as int, hs as int, self.hunk_count as int);
        }
        self.current_hunk = out;
        self.current_hunk_index = h;
        self.current_hunk_read = true;
        Ok(())
    }
}

/// The state of a hunk handle apart from its read position and retained hunk.
pub open spec fn hunk_io_kept(a: CompressedHunkDiskIO, b: CompressedHunkDiskIO) -> bool {
    &&& b.inv()
    &&& b.stream() == a.stream()
    &&& b.staged() == a.staged()
    &&& b.position() == a.position()
    &&& b.collation_spec() == a.collation_spec()
    &&& b.path_spec() == a.path_spec()
}

impl CompressedHunkDiskIO {
    pub closed spec fn all_writes(&self) -> Seq<HunkWriteInfo> {
        self.applied_hunk_writes@ + self.pending_hunk_writes@
    }

    pub closed spec fn prior_bytes(&self) -> Seq<u8> {
        match self.prior_diff {
            Some(p) => p@,
            None => Seq::empty(),
        }
    }

    pub closed spec fn kept_fields(&self, prev: CompressedHunkDiskIO) -> bool {
        &&& self.hunk_size == prev.hunk_size
        &&& self.hunk_count == prev.hunk_count
        &&& self.size == prev.size
        &&& self.unit_bytes == prev.unit_bytes
        &&& self.parent_sha1 == prev.parent_sha1
        &&& self.prior_diff == prev.prior_diff
        &&& self.applied_hunk_writes == prev.applied_hunk_writes
        &&& self.pending_hunk_writes == prev.pending_hunk_writes
    }

    /// Hunk `h` as the stream holds it once the buffered writes are committed.
    fn staged_hunk(&mut self, h: usize) -> (r: Result<Vec<u8>, BuildIOError>)
        requires
            old(self).inv(),
            h < old(self).hunk_count,
        ensures
            hunk_io_kept(*old(self), *final(self)),
            final(self).kept_fields(*old(self)),
            forall|i: u32, l: nat| #[trigger] container_hunk_ok(final(self).chd, i, l) == container_hunk_ok(old(self).chd, i, l),
            container_hunk_ok(old(self).chd, h as u32, old(self).hunk_size as nat) ==> r is Ok,
            r is Err ==> r->Err_0 == BuildIOError::Format,
            r is Ok ==> r->Ok_0@ == hunk_slice(old(self).staged(), h as int, old(self).hunk_size as int),
    {
        let hs = self.hunk_size;
        let mut out = filled(0, hs);
        let ghost c0 = self.chd;
        let res = self.chd.read_hunk(h as u32, &mut out);
        assert(container_stream(self.chd, hs as int, self.hunk_count as int) =~= container_stream(c0, hs as int, self.hunk_count as int));
        if res.is_err() {
            self.current_hunk_read = false;
            return Err(BuildIOError::Format);
        }
        self.current_hunk_read = false;
        proof {
            lemma_container_slice(c0, h as int, hs as int, self.hunk_count as int);
        }
        let ghost hunk0 = out@;
        let ghost applied = self.applied_hunk_writes@;
        let ghost pending = self.pending_hunk_writes@;
        let mut i: usize = 0;
        while i < self.applied_hunk_writes.len()
            invariant
                self.inv(),
                hunk_io_kept(*old(self), *self),
                self.kept_fields(*old(self)),
                applied == self.applied_hunk_writes@,
                h < self.hunk_count,
                hs == self.hunk_size,
                out@.len() == hs,
                i <= applied.len(),
                out@ == apply_local(hunk0, applied.subrange(0, i as int), h as int),
            decreases applied.len() - i,
        {
            let w = &self.applied_hunk_writes[i];
            proof {
                assert(applied.subrange(0, i + 1).drop_last() =~= applied.subrange(0, i as int));
                assert(confined(applied[i as int], hs as int, self.hunk_count as int));
            }
            if w.hunk_index == h {
                image_write(&mut out, w.hunk_offset, &w.data);
            }
            i = i + 1;
        }
        assert(applied.subrange(0, applied.len() as int) =~= applied);
        let mut j: usize = 0;
        while j < self.pending_hunk_writes.len()
            invariant
                self.inv(),
                hunk_io_kept(*old(self), *self),
                self.kept_fields(*old(self)),
                applied == self.applied_hunk_writes@,
                pending == self.pending_hunk_writes@,
                h < self.hunk_count,
                hs == self.hunk_size,
                out@.len() == hs,
                j <= pending.len(),
                out@ == apply_local(hunk0, applied + pending.subrange(0, j as int), h as int),
            decreases pending.len() - j,
        {
            let w = &self.pending_hunk_writes[j];
            proof {
                assert((applied + pending.subrange(0, j + 1)).drop_last() =~= applied + pending.subrange(0, j as int));
                assert((applied + pending.subrange(0, j + 1)).last() == pending[j as int]);
                assert(confined(pending[j as int], hs as int, self.hunk_count as int));
            }
            if w.hunk_index == h {
                image_write(&mut out, w.hunk_offset, &w.data);
            }
            j = j + 1;
        }
        proof {
            assert(pending.subrange(0, pending.len() as int) =~= pending);
            let base = container_stream(self.chd, hs as int, self.hunk_count as int);
            lemma_apply_writes_concat(base, applied, pending, hs as int);
            assert forall|k: int| 0 <= k < (applied + pending).len() implies confined(#[trigger] (applied + pending)[k], hs as int, self.hunk_count as int) by {
                if k < applied.len() {
                    assert((applied + pending)[k] == applied[k]);
                } else {
                    assert((applied + pending)[k] == pending[k - applied.len()]);
                }
            }
            lemma_slice_after_writes(base, applied + pending, h as int, hs as int, self.hunk_count as int);
        }
        Ok(out)
    }

    /// Which hunks the writes made through this handle touch.
    fn touched_flags(&self) -> (r: Vec<bool>)
        requires
            self.inv(),
        ensures
            r@.len() == self.hunk_count,
            forall|t: int| 0 <= t < self.hunk_count ==> r@[t] == touched(self.all_writes(), t),
    {
        let count = self.hunk_count;
        let mut flags: Vec<bool> = Vec::new();
        let mut h: usize = 0;
        while h < count
            invariant
                h <= count,
                flags@.len() == h,
                forall|t: int| 0 <= t < h ==> !flags@[t],
            decreases count - h,
        {
            flags.push(false);
            h = h + 1;
        }
        let ghost empty = Seq::<HunkWriteInfo>::empty();
        assert forall|t: int| 0 <= t < count implies flags@[t] == touched(empty, t) by {}
        mark_flags(&mut flags, &self.applied_hunk_writes, Ghost(empty), Ghost(self.hunk_size as int));
        assert(empty + self.applied_hunk_writes@ =~= self.applied_hunk_writes@);
        mark_flags(&mut flags, &self.pending_hunk_writes, Ghost(self.applied_hunk_writes@), Ghost(self.hunk_size as int));
        flags
    }

    /// Lays the writes made through this handle into a new diff image: a
    /// version 5 header naming the overlaid container's hash, the hunk map,
    /// the geometry metadata, then each written hunk whole, then the hunks
    /// that the prior diff held and that were not written again.
    #[verifier::rlimit(60)]
    pub fn build_diff(&mut self) -> (r: Result<Vec<u8>, BuildIOError>)
        requires
            old(self).inv(),
        ensures
            hunk_io_kept(*old(self), *final(self)),
            final(self).kept_fields(*old(self)),
            final(self).decodes_like(*old(self)),
            !old(self).diff_fits_spec() ==> r == Err::<Vec<u8>, BuildIOError>(BuildIOError::OutOfRange),
            old(self).diff_fits_spec() && old(self).touched_hunks_ok() ==> r is Ok,
            old(self).diff_fits_spec() && r is Err ==> r->Err_0 == BuildIOError::Format && !old(self).touched_hunks_ok(),
            r is Ok ==> r->Ok_0@ == diff_image(old(self).size_spec(), old(self).hunk_bytes() as u32, old(self).sector_bytes(),
                old(self).hunks() as nat, old(self).parent_hash(), old(self).staged(), old(self).all_writes(), old(self).prior_bytes()),
    {
        let ghost ws = self.all_writes();
        let ghost staged = self.staged();
        let count = self.hunk_count;
        let hs = self.hunk_size;
        let unit = self.unit_bytes;
        let size = self.size;
        let flags = self.touched_flags();
        let prior: Vec<u8> = match &self.prior_diff {
            Some(p) => p.clone(),
            None => Vec::new(),
        };
        assert(prior@ == self.prior_bytes());
        let entries = prior_entries(&prior, count);
        let text = geometry_text_of(size, unit);
        if text.len() > 0xfffe {
            return Err(BuildIOError::OutOfRange);
        }
        let meta_offset: u64 = CHD_HEADER_SIZE + 4 * (count as u64);
        let meta_end: u64 = meta_offset + CHD_METADATA_SIZE + text.len() as u64 + 1;
        let rounded: u64 = meta_end + hs as u64 - 1;
        assert((rounded as int / hs as int) * hs <= rounded) by (nonlinear_arith)
            requires hs > 0, rounded >= 0;
        let data_off: u64 = (rounded / hs as u64) * hs as u64;
        assert(meta_end <= data_off && data_off <= meta_end + hs) by (nonlinear_arith)
            requires data_off == ((meta_end + hs - 1) / hs as int) * hs, hs > 0;
        let start: u64 = data_off / hs as u64;
        assert(data_off == data_offset_of(count as nat, text@.len(), hs as int));
        if start + count as u64 > 0xffff_ffff {
            return Err(BuildIOError::OutOfRange);
        }
        assert(old(self).diff_fits_spec());
        assert(data_off - meta_end <= MAX_HUNK_SIZE);
        let map = slot_map_of(&flags, &entries, start, Ghost(ws), Ghost(prior@));
        let mut out = diff_prefix(size, hs as u32, unit, &self.parent_sha1, &map, &text, meta_offset, (data_off - meta_end) as usize);
        let ghost before_hunks = out@;
        let mut h: usize = 0;
        while h < count
            invariant
                self.inv(),
                hunk_io_kept(*old(self), *self),
                self.kept_fields(*old(self)),
                staged == self.staged(),
                hs == self.hunk_size,
                count == self.hunk_count,
                h <= count,
                flags@.len() == count,
                forall|t: int| 0 <= t < count ==> flags@[t] == touched(ws, t),
                out@ == before_hunks + touched_payload(staged, ws, hs as int, h as nat),
                forall|i: u32, l: nat| #[trigger] container_hunk_ok(self.chd, i, l) == container_hunk_ok(old(self).chd, i, l),
                ws == old(self).all_writes(),
                old(self).diff_fits_spec(),
            decreases count - h,
        {
            if flags[h] {
                match self.staged_hunk(h) {
                    Ok(hunk) => push_all(&mut out, &hunk),
                    Err(e) => {
                        assert(!container_hunk_ok(old(self).chd, h as u32, hs as nat));
                        proof {
                            let hi = h as u32;
                            assert(touched(old(self).all_writes(), hi as int));
                            assert(hi < old(self).hunk_count);
                            assert(old(self).hunk_size == hs);
                            if old(self).touched_hunks_ok() {
                                assert(container_hunk_ok(old(self).chd, hi, old(self).hunk_size as nat));
                            }
                        }
                        return Err(e);
                    },
                }
            }
            h = h + 1;
        }
        let ghost before_carried = out@;
        let mut h: usize = 0;
        while h < count
            invariant
                h <= count,
                hs <= MAX_HUNK_SIZE,
                flags@.len() == count,
                entries@.len() == count,
                forall|t: int| 0 <= t < count ==> flags@[t] == touched(ws, t),
                forall|t: int| 0 <= t < count ==> entries@[t] == prior_entry(prior@, t),
                out@ == before_carried + carried_payload(prior@, ws, hs as int, h as nat),
            decreases count - h,
        {
            if !flags[h] && entries[h] != 0 {
                let hunk = prior_hunk_of(&prior, entries[h], hs);
                push_all(&mut out, &hunk);
            }
            h = h + 1;
        }
        Ok(out)
    }
}

/// Marks the hunks that the writes `ws` touch, after those of `prefix`.
fn mark_flags(flags: &mut Vec<bool>, ws: &Vec<HunkWriteInfo>, prefix: Ghost<Seq<HunkWriteInfo>>, hs: Ghost<int>)
    requires
        forall|i: int| 0 <= i < ws@.len() ==> confined(#[trigger] ws@[i], hs@, old(flags)@.len() as int),
        forall|t: int| 0 <= t < old(flags)@.len() ==> old(flags)@[t] == touched(prefix@, t),
    ensures
        final(flags)@.len() == old(flags)@.len(),
        forall|t: int| 0 <= t < old(flags)@.len() ==> final(flags)@[t] == touched(prefix@ + ws@, t),
{
    let count = flags.len();
    let mut i: usize = 0;
    while i < ws.len()
        invariant
            count == flags@.len(),
            count == old(flags)@.len(),
            i <= ws@.len(),
            forall|k: int| 0 <= k < ws@.len() ==> confined(#[trigger] ws@[k], hs@, count as int),
            forall|t: int| 0 <= t < count ==> flags@[t] == touched(prefix@ + ws@.subrange(0, i as int), t),
        decreases ws@.len() - i,
    {
        let hi = ws[i].hunk_index;
        assert(confined(ws@[i as int], hs@, count as int));
        flags.set(hi, true);
        proof {
            let prev = prefix@ + ws@.subrange(0, i as int);
            let sub = prefix@ + ws@.subrange(0, i + 1);
            assert(sub.len() == prev.len() + 1);
            assert forall|k: int| 0 <= k < prev.len() implies sub[k] == prev[k] by {}
            assert(sub[prev.len() as int] == ws@[i as int]);
            assert forall|t: int| 0 <= t < count implies flags@[t] == touched(sub, t) by {
                if t == hi {
                    assert(sub[prev.len() as int].hunk_index == t);
                } else {
                    if touched(sub, t) {
                        let k = choose|k: int| 0 <= k < sub.len() && (#[trigger] sub[k]).hunk_index == t;
                        assert(prev[k] == sub[k]);
                    }
                    if touched(prev, t) {
                        let k = choose|k: int| 0 <= k < prev.len() && (#[trigger] prev[k]).hunk_index == t;
                        assert(sub[k] == prev[k]);
                    }
                }
            }
        }
        i = i + 1;
    }
    assert(ws@.subrange(0, ws@.len() as int) =~= ws@);
}

/// The bytes of a diff before its hunks: header, hunk map, geometry
/// metadata and the padding that aligns the first hunk.
fn diff_prefix(size: u64, hs: u32, unit: u32, parent: &[u8; 20], map: &Vec<u32>, text: &Vec<u8>, meta_offset: u64, pad: usize) -> (r: Vec<u8>)
    requires
        text@.len() <= 0xfffe,
    ensures
        r@ == diff_header(size, meta_offset, hs, unit, parent@) + map_bytes(map@) + metadata_chunk(text@.len()) + text@ + seq![0u8]
            + Seq::new(pad as nat, |i: int| 0u8),
{
    let mut out = diff_header_bytes(size, meta_offset, hs, unit, parent);
    push_map(&mut out, map);
    let chunk = CHDChunkMetadata {
        chunk_id: CHD_METADATA_CHUNK_ID,
        flags: 1,
        size: DataU24 { ms: 0, ls: (text.len() + 1) as u16 },
        next_offset: 0,
    };
    let chunk_bytes = chunk.to_be_bytes();
    assert(chunk_bytes@ =~= metadata_chunk(text@.len()));
    push_all(&mut out, &chunk_bytes);
    push_all(&mut out, text);
    out.push(0);
    push_zeros(&mut out, pad);
    assert(out@ =~= diff_header(size, meta_offset, hs, unit, parent@) + map_bytes(map@) + metadata_chunk(text@.len()) + text@ + seq![0u8]
            + Seq::new(pad as nat, |i: int| 0u8));
    out
}

/// The hunk-map entries of the first `count` hunks in the prior diff.
fn prior_entries(prior: &Vec<u8>, count: usize) -> (r: Vec<u32>)
    requires
        count < 0x1_0000_0000,
    ensures
        r@.len() == count,
        forall|t: int| 0 <= t < count ==> r@[t] == prior_entry(prior@, t),
{
    let mut entries: Vec<u32> = Vec::new();
    let mut h: usize = 0;
    while h < count
        invariant
            h <= count,
            count < 0x1_0000_0000,
            entries@.len() == h,
            forall|t: int| 0 <= t < h ==> entries@[t] == prior_entry(prior@, t),
        decreases count - h,
    {
        entries.push(prior_entry_of(prior, h));
        h = h + 1;
    }
    entries
}

/// The hunk map of a new diff whose hunks start at slot `start`.
fn slot_map_of(flags: &Vec<bool>, entries: &Vec<u32>, start: u64, ws: Ghost<Seq<HunkWriteInfo>>, prior: Ghost<Seq<u8>>) -> (r: Vec<u32>)
    requires
        flags@.len() == entries@.len(),
        start + flags@.len() <= 0xffff_ffff,
        forall|t: int| 0 <= t < flags@.len() ==> flags@[t] == touched(ws@, t),
        forall|t: int| 0 <= t < flags@.len() ==> entries@[t] == prior_entry(prior@, t),
    ensures
        r@ == slot_map(ws@, prior@, flags@.len() as nat, start as int),
{
    let count = flags.len();
    let mut total: u64 = 0;
    let mut h: usize = 0;
    while h < count
        invariant
            h <= count,
            count == flags@.len(),
            forall|t: int| 0 <= t < count ==> flags@[t] == touched(ws@, t),
            total == count_touched(ws@, h as nat),
            total <= h,
        decreases count - h,
    {
        if flags[h] {
            total = total + 1;
        }
        h = h + 1;
    }
    let ghost smap = slot_map(ws@, prior@, count as nat, start as int);
    let mut map: Vec<u32> = Vec::new();
    let mut nt: u64 = 0;
    let mut nc: u64 = 0;
    let mut h: usize = 0;
    while h < count
        invariant
            h <= count,
            count == flags@.len(),
            start + count <= 0xffff_ffff,
            entries@.len() == count,
            forall|t: int| 0 <= t < count ==> flags@[t] == touched(ws@, t),
            forall|t: int| 0 <= t < count ==> entries@[t] == prior_entry(prior@, t),
            total == count_touched(ws@, count as nat),
            nt == count_touched(ws@, h as nat),
            nc == count_carried(ws@, prior@, h as nat),
            map@ == smap.subrange(0, h as int),
            smap == slot_map(ws@, prior@, count as nat, start as int),
        decreases count - h,
    {
        proof {
            lemma_counts_bound(ws@, prior@, h as nat, count as nat);
        }
        let slot: u32 = if flags[h] {
            let v = (start + nt) as u32;
            nt = nt + 1;
            v
        } else if entries[h] != 0 {
            let v = (start + total + nc) as u32;
            nc = nc + 1;
            v
        } else {
            0
        };
        map.push(slot);
        h = h + 1;
        assert(map@ =~= smap.subrange(0, h as int));
    }
    assert(map@ =~= smap);
    map
}

/// The header of a diff.
fn zero_hash() -> (r: Sha1Hash)
    ensures
        r.hash@ == Seq::new(20, |i: int| 0u8),
{
    let r = Sha1Hash { hash: [0u8, 0, 0, 0, 0, 0, 0, 0, 0, 0, 0, 0, 0, 0, 0, 0, 0, 0, 0, 0] };
    assert(r.hash@ =~= Seq::new(20, |i: int| 0u8));
    r
}

fn diff_header_bytes(size: u64, meta_offset: u64, hs: u32, unit: u32, parent: &[u8; 20]) -> (r: Vec<u8>)
    ensures
        r@ == diff_header(size, meta_offset, hs, unit, parent@),
{
    let header = CHDHeaderV5 {
        magic: [77, 67, 111, 109, 112, 114, 72, 68],
        header_size: CHD_HEADER_SIZE as u32,
        header_version: CHD_HEADER_VERSION,
        compressor: [0, 0, 0, 0],
        uncompressed_size: size,
        hunk_map_offset: CHD_HEADER_SIZE,
        disk_metadata_offset: meta_offset,
        hunk_size_bytes: hs,
        sector_size_bytes: unit,
        sha1: [zero_hash(), zero_hash(), Sha1Hash { hash: *parent }],
    };
    assert(header.magic@ =~= chd_magic());
    assert(header.compressor@[0] == 0 && header.compressor@[1] == 0 && header.compressor@[2] == 0 && header.compressor@[3] == 0);
    assert(header_v5_bytes(header) == diff_header(size, meta_offset, hs, unit, parent@));
    header.to_be_bytes()
}

/// Appends the big-endian bytes of a hunk map.
fn push_map(out: &mut Vec<u8>, map: &Vec<u32>)
    ensures
        final(out)@ == old(out)@ + map_bytes(map@),
{
    let ghost start = out@;
    let mut h: usize = 0;
    while h < map.len()
        invariant
            h <= map@.len(),
            start == old(out)@,
            out@ == start + map_bytes(map@.subrange(0, h as int)),
        decreases map@.len() - h,
    {
        crate::bytes::push_be_u32(out, map[h]);
        proof {
            assert(map@.subrange(0, h + 1).drop_last() =~= map@.subrange(0, h as int));
        }
        h = h + 1;
    }
    assert(map@.subrange(0, map@.len() as int) =~= map@);
}

proof fn lemma_counts_bound(ws: Seq<HunkWriteInfo>, prior: Seq<u8>, h: nat, count: nat)
    requires
        h < count,
    ensures
        count_touched(ws, h) + count_carried(ws, prior, h) <= h,
        count_touched(ws, count) + count_carried(ws, prior, h) <= count,
        count_touched(ws, count) + count_carried(ws, prior, (h + 1) as nat) <= count,
        count_touched(ws, (h + 1) as nat) + count_carried(ws, prior, (h + 1) as nat) <= h + 1,
    decreases count - h,
{
    lemma_counts_prefix(ws, prior, h);
    lemma_counts_prefix(ws, prior, (h + 1) as nat);
    lemma_touched_split(ws, prior, h, count);
    lemma_touched_split(ws, prior, (h + 1) as nat, count);
}

proof fn lemma_counts_prefix(ws: Seq<HunkWriteInfo>, prior: Seq<u8>, h: nat)
    ensures
        count_touched(ws, h) + count_carried(ws, prior, h) <= h,
    decreases h,
{
    if h > 0 {
        lemma_counts_prefix(ws, prior, (h - 1) as nat);
    }
}

/// Touched hunks from `h` on and carried hunks before `h` fit in `count`.
proof fn lemma_touched_split(ws: Seq<HunkWriteInfo>, prior: Seq<u8>, h: nat, count: nat)
    requires
        h <= count,
    ensures
        count_touched(ws, count) + count_carried(ws, prior, h) <= count,
    decreases count - h,
{
    if h == count {
        lemma_counts_prefix(ws, prior, count);
    } else {
        lemma_touched_split(ws, prior, (h + 1) as nat, count);
    }
}

impl CompressedHunkDiskIO {
    /// Both handles read the same container the same way.
    proof fn lemma_read_ok_same(a: CompressedHunkDiskIO, b: CompressedHunkDiskIO)
        requires
            a.hunk_size == b.hunk_size,
            a.hunk_count == b.hunk_count,
            a.size == b.size,
            forall|i: u32, l: nat| #[trigger] container_hunk_ok(b.chd, i, l) == container_hunk_ok(a.chd, i, l),
        ensures
            forall|p: int, n: int| #[trigger] b.read_ok(p, n) == a.read_ok(p, n),
    {
        assert forall|p: int, n: int| #[trigger] b.read_ok(p, n) == a.read_ok(p, n) by {
            let hs = a.hunk_size as int;
            let c = a.hunk_count as int;
            let k = span(a.size as int, p, n);
            if hunks_ok(a.chd, hs, c, p, k) {
                assert forall|h: u32| h < c && h * hs < p + k && p < h * hs + hs implies
                    #[trigger] container_hunk_ok(b.chd, h, hs as nat) by {
                    assert(container_hunk_ok(a.chd, h, hs as nat));
                }
            }
            if hunks_ok(b.chd, hs, c, p, k) {
                assert forall|h: u32| h < c && h * hs < p + k && p < h * hs + hs implies
                    #[trigger] container_hunk_ok(a.chd, h, hs as nat) by {
                    assert(container_hunk_ok(b.chd, h, hs as nat));
                }
            }
        }
    }

    /// Commits the buffered writes: lays every write made through this handle
    /// into a new diff image, which `diff_bytes` then hands out, and makes the
    /// stream the staged stream.
    pub fn commit_diff(&mut self) -> (r: Result<(), BuildIOError>)
        requires
            old(self).inv(),
        ensures
            final(self).inv(),
            final(self).collation_spec() == old(self).collation_spec(),
            final(self).path_spec() == old(self).path_spec(),
            final(self).staged() == old(self).staged(),
            forall|p: int, n: int| #[trigger] final(self).read_ok(p, n) == old(self).read_ok(p, n),
            old(self).commit_ok() ==> r is Ok,
            old(self).pending_count() == 0 ==> r is Ok && final(self).last_diff() == old(self).last_diff()
                && final(self).stream() == old(self).stream(),
            old(self).pending_count() > 0 && !old(self).diff_fits_spec() ==> r == Err::<(), BuildIOError>(BuildIOError::OutOfRange),
            old(self).pending_count() > 0 && old(self).diff_fits_spec() && r is Err
                ==> r->Err_0 == BuildIOError::Format && !old(self).touched_hunks_ok(),
            r is Ok ==> final(self).stream() == old(self).staged() && final(self).pending_count() == 0,
            r is Ok && old(self).pending_count() > 0 ==> final(self).last_diff() == Some(diff_image(old(self).size_spec(),
                old(self).hunk_bytes() as u32, old(self).sector_bytes(), old(self).hunks() as nat, old(self).parent_hash(),
                old(self).staged(), old(self).all_writes(), old(self).prior_bytes())),
    {
        if self.pending_hunk_writes.len() == 0 {
            return Ok(());
        }
        let ghost before = *self;
        let image = match self.build_diff() {
            Ok(image) => image,
            Err(e) => {
                proof {
                    CompressedHunkDiskIO::lemma_read_ok_same(before, *self);
                }
                return Err(e);
            },
        };
        self.diff_image = Some(image);
        let ghost applied = self.applied_hunk_writes@;
        let ghost pending = self.pending_hunk_writes@;
        let mut pending_writes = Vec::new();
        std::mem::swap(&mut pending_writes, &mut self.pending_hunk_writes);
        self.applied_hunk_writes.append(&mut pending_writes);
        self.current_hunk_read = false;
        proof {
            lemma_apply_writes_concat(container_stream(self.chd, self.hunk_size as int, self.hunk_count as int), applied, pending, self.hunk_size as int);
            CompressedHunkDiskIO::lemma_read_ok_same(before, *self);
        }
        Ok(())
    }
}

impl CompressedHunkDiskIO {
    /// The rules of a hunk handle: reads and writes move whole 16-bit words,
    /// four bytes at least; a write buffers the collated buffer; a read
    /// succeeds when the hunks it covers decode, a commit when nothing is
    /// pending or the diff fits and every written hunk decodes.
    pub proof fn lemma_rules(&self)
        ensures
            forall|n: int| #[trigger] self.accepts_read(n) == (n >= 4 && n % 2 == 0),
            forall|n: int| #[trigger] self.accepts_write(n) == (n >= 4 && n % 2 == 0),
            forall|b: Seq<u8>| #[trigger] self.write_image(b) == apply_collation(b, self.collation_spec()),
            forall|p: int, n: int| #[trigger] self.read_ok(p, n)
                == hunks_ok(self.container(), self.hunk_bytes(), self.hunks(), p, span(self.size_spec() as int, p, n)),
            self.commit_ok() == (self.pending_count() == 0 || (self.diff_fits_spec() && self.touched_hunks_ok())),
            !self.infallible(),
    {
    }
}

impl BuildIO for CompressedHunkDiskIO {
    closed spec fn stream(&self) -> Seq<u8> {
        self.committed()
    }

    closed spec fn staged(&self) -> Seq<u8> {
        apply_hunk_writes(self.committed(), self.pending_hunk_writes@, self.hunk_size as int)
    }

    closed spec fn position(&self) -> int {
        self.position as int
    }

    closed spec fn collation_spec(&self) -> BuildIODataCollation {
        self.collation
    }

    closed spec fn path_spec(&self) -> Seq<char> {
        self.file_path@
    }

    closed spec fn accepts_read(&self, n: int) -> bool {
        n >= 4 && n % 2 == 0
    }

    closed spec fn accepts_write(&self, n: int) -> bool {
        n >= 4 && n % 2 == 0
    }

    closed spec fn infallible(&self) -> bool {
        false
    }

    closed spec fn read_ok(&self, pos: int, n: int) -> bool {
        hunks_ok(self.chd, self.hunk_size as int, self.hunk_count as int, pos, span(self.size as int, pos, n))
    }

    closed spec fn commit_ok(&self) -> bool {
        self.pending_hunk_writes@.len() == 0 || (self.diff_fits_spec() && self.touched_hunks_ok())
    }

    closed spec fn backend(&self) -> nat {
        0
    }

    closed spec fn write_image(&self, buf: Seq<u8>) -> Seq<u8> {
        apply_collation(buf, self.collation)
    }

    closed spec fn inv(&self) -> bool {
        let hs = self.hunk_size as int;
        let n = self.hunk_count as int;
        &&& hs > 0
        &&& hs <= MAX_HUNK_SIZE
        &&& self.unit_bytes > 0
        &&& n * hs <= usize::MAX
        &&& n < 0x1_0000_0000
        &&& self.size == n * hs
        &&& self.position <= n * hs
        &&& forall|i: int| 0 <= i < self.applied_hunk_writes@.len() ==> confined(#[trigger] self.applied_hunk_writes@[i], hs, n)
        &&& forall|i: int| 0 <= i < self.pending_hunk_writes@.len() ==> confined(#[trigger] self.pending_hunk_writes@[i], hs, n)
        &&& self.current_hunk_read ==> self.current_hunk_index < n
            && self.current_hunk@ == hunk_slice(self.committed(), self.current_hunk_index as int, hs)
    }

    proof fn lemma_inv(&self) {
        self.lemma_stream_len();
    }

    fn file_path(&self) -> (r: String) {
        self.file_path.clone()
    }

    fn collation(&self) -> (r: BuildIODataCollation) {
        self.collation
    }

    fn len(&self) -> (r: u64) {
        proof {
            self.lemma_inv();
            self.lemma_stream_len();
        }
        self.size
    }

    fn seek(&mut self, pos: u64) -> (r: Result<u64, BuildIOError>) {
        proof {
            self.lemma_inv();
            self.lemma_stream_len();
        }
        if pos <= self.size {
            self.position = pos as usize;
            Ok(pos)
        } else {
            Err(BuildIOError::OutOfRange)
        }
    }

    fn read(&mut self, buf: &mut Vec<u8>) -> (r: Result<usize, BuildIOError>) {
        proof {
            self.lemma_inv();
            self.lemma_stream_len();
        }
        let n = buf.len();
        if n < 4 || n % 2 == 1 {
            return Err(BuildIOError::BufferLength);
        }
        let hs = self.hunk_size;
        let len = self.size as usize;
        let pos = self.position;
        let k = if n <= len - pos { n } else { len - pos };
        let ghost orig = buf@;
        let ghost s = self.stream();
        let mut i: usize = 0;
        while i < k
            invariant
                self.inv(),
                orig == old(buf)@,
                pos == old(self).position,
                n >= 4,
                n % 2 == 0,
                k == span(old(self).size as int, pos as int, n as int),
                forall|i: u32, l: nat| #[trigger] container_hunk_ok(self.chd, i, l) == container_hunk_ok(old(self).chd, i, l),
                self.hunk_size == old(self).hunk_size,
                self.hunk_count == old(self).hunk_count,
                self.size == old(self).size,
                len == self.size,
                s == self.stream(),
                s == old(self).stream(),
                self.staged() == old(self).staged(),
                self.position == pos,
                self.collation == old(self).collation,
                self.file_path == old(self).file_path,
                hs == self.hunk_size,
                len == s.len(),
                pos + k <= len,
                k <= n,
                i <= k,
                buf@.len() == n,
                n == orig.len(),
                forall|t: int| 0 <= t < i ==> buf@[t] == s[pos + t],
                forall|t: int| i <= t < n ==> buf@[t] == orig[t],
            decreases k - i,
        {
            let at = pos + i;
            let h = at / hs;
            let o = at % hs;
            assert(h < self.hunk_count && h * hs + o == at) by (nonlinear_arith)
                requires at < len, len == self.hunk_count * hs, h == at / hs, o == at % hs, hs > 0;
            if !(self.current_hunk_read && self.current_hunk_index == h) {
                let ghost before = *self;
                match self.load_hunk(h) {
                    Ok(()) => {},
                    Err(e) => {
                        proof {
                            assert(h * hs < pos + k && pos < h * hs + hs);
                            assert(!container_hunk_ok(old(self).chd, h as u32, hs as nat));
                            if hunks_ok(old(self).chd, hs as int, old(self).hunk_count as int, pos as int, k as int) {
                                let hi = h as u32;
                                assert(hi < old(self).hunk_count && hi * hs < pos + k && pos < hi * hs + hs);
                                lemma_hunks_ok_at(old(self).chd, hs as int, old(self).hunk_count as int, pos as int, k as int, hi);
                            }
                            CompressedHunkDiskIO::lemma_read_ok_same(*old(self), *self);
                        }
                        return Err(e);
                    },
                }
                proof {
                    CompressedHunkDiskIO::lemma_read_ok_same(before, *self);
                }
            }
            let m = if k - i <= hs - o { k - i } else { hs - o };
            proof {
                self.lemma_inv();
                assert(h * hs + hs <= len) by (nonlinear_arith)
                    requires h < self.hunk_count, len == self.hunk_count * hs, hs > 0;
                assert(self.current_hunk@.len() == hs);
            }
            copy_range(buf, i, &self.current_hunk, o, m);
            proof {
                assert forall|t: int| i <= t < i + m implies buf@[t] == s[pos + t] by {
                    assert(buf@[t] == self.current_hunk@[o + t - i]);
                    assert(h * hs + o + t - i == pos + t);
                }
            }
            i = i + m;
        }
        assert(buf@ =~= s.subrange(pos as int, pos + k) + orig.subrange(k as int, n as int));
        let _ = BuildIODataCollation::convert_raw_data(buf, self.collation);
        self.position = pos + k;
        proof {
            CompressedHunkDiskIO::lemma_read_ok_same(*old(self), *self);
        }
        Ok(k)
    }

    fn write(&mut self, buf: &Vec<u8>) -> (r: Result<usize, BuildIOError>) {
        proof {
            self.lemma_inv();
            self.lemma_stream_len();
        }
        let n = buf.len();
        if n < 4 || n % 2 == 1 {
            return Err(BuildIOError::BufferLength);
        }
        let mut data = buf.clone();
        let _ = BuildIODataCollation::convert_raw_data(&mut data, self.collation);
        let hs = self.hunk_size;
        let len = self.size as usize;
        let pos = self.position;
        let k = if n <= len - pos { n } else { len - pos };
        let ghost old_staged = self.staged();
        proof {
            self.lemma_inv();
        }
        let mut i: usize = 0;
        while i < k
            invariant
                self.inv(),
                self.chd == old(self).chd,
                self.size == old(self).size,
                self.hunk_size == old(self).hunk_size,
                self.hunk_count == old(self).hunk_count,
                data@.len() == n,
                self.position == pos,
                self.stream() == old(self).stream(),
                self.collation == old(self).collation,
                self.file_path == old(self).file_path,
                hs == self.hunk_size,
                len == self.size,
                old_staged.len() == len,
                pos + k <= len,
                k <= data@.len(),
                i <= k,
                self.staged() == splice(old_staged, pos as int, data@.subrange(0, i as int)),
            decreases k - i,
        {
            let at = pos + i;
            let h = at / hs;
            let o = at % hs;
            assert(h < self.hunk_count && h * hs + o == at && o < hs) by (nonlinear_arith)
                requires at < len, len == self.hunk_count * hs, h == at / hs, o == at % hs, hs > 0;
            let m = if k - i <= hs - o { k - i } else { hs - o };
            let mut chunk = filled(0, m);
            copy_range(&mut chunk, 0, &data, i, m);
            assert(chunk@ =~= data@.subrange(i as int, i + m));
            let ghost prev = self.pending_hunk_writes@;
            self.pending_hunk_writes.push(HunkWriteInfo { hunk_index: h, hunk_offset: o, size: m, data: chunk });
            proof {
                assert(self.pending_hunk_writes@.drop_last() =~= prev);
                lemma_splice_concat(old_staged, pos as int, data@.subrange(0, i as int), data@.subrange(i as int, i + m));
                assert(data@.subrange(0, i as int) + data@.subrange(i as int, i + m) =~= data@.subrange(0, i + m));
            }
            i = i + m;
        }
        assert(splice(old_staged, pos as int, data@.subrange(0, k as int)) =~= splice(old_staged, pos as int, data@));
        self.position = pos + k;
        proof {
            CompressedHunkDiskIO::lemma_read_ok_same(*old(self), *self);
        }
        Ok(k)
    }

    fn commit(&mut self) -> (r: Result<(), BuildIOError>) {
        self.commit_diff()
    }
}

/// A raw disk image held in memory; writes change it at once.
pub struct RawDiskIO {
    file_path: String,
    collation: BuildIODataCollation,
    size: u64,
    data: Vec<u8>,
    pos: usize,
}

impl RawDiskIO {
    pub fn open(file_path: String, collation: Option<BuildIODataCollation>, image: Vec<u8>) -> (r: RawDiskIO)
        ensures
            r.inv() && r.infallible() && r.position() == 0 && r.path_spec() == file_path@ && r.stream() == image@
                && r.collation_spec() == (match collation { Some(c) => c, None => BuildIODataCollation::Raw }),
    {
        let c = match collation {
            Some(c) => c,
            None => BuildIODataCollation::Raw,
        };
        let size = image.len() as u64;
        RawDiskIO { file_path, collation: c, size, data: image, pos: 0 }
    }

    /// A new zero-filled image of `size` bytes.
    pub fn create(file_path: String, collation: Option<BuildIODataCollation>, size: u64) -> (r: Result<RawDiskIO, BuildIOError>)
        ensures
            size <= usize::MAX ==> r is Ok && r->Ok_0.stream() == Seq::new(size as nat, |i: int| 0u8),
            size > usize::MAX ==> r == Err::<RawDiskIO, BuildIOError>(BuildIOError::OutOfRange),
            r is Ok ==> r->Ok_0.inv() && r->Ok_0.infallible() && r->Ok_0.position() == 0 && r->Ok_0.path_spec() == file_path@,
    {
        let c = match collation {
            Some(c) => c,
            None => BuildIODataCollation::Raw,
        };
        if size > usize::MAX as u64 {
            return Err(BuildIOError::OutOfRange);
        }
        let data = filled(0, size as usize);
        Ok(RawDiskIO { file_path, collation: c, size, data, pos: 0 })
    }

    /// The image to store.
    pub fn file_image(&self) -> (r: Vec<u8>)
        ensures
            r@ == self.stream(),
    {
        self.data.clone()
    }
}

impl RawDiskIO {
    /// A raw disk write takes effect at once: what reads return is what a
    /// commit would store.
    pub proof fn lemma_writes_at_once(&self)
        ensures
            self.stream() == self.staged(),
    {
    }
}

impl RawDiskIO {
    /// The rules of a raw disk handle: reads move whole 16-bit words, four
    /// bytes at least; writes take any buffer and store it collated; nothing
    /// fails.
    pub proof fn lemma_rules(&self)
        ensures
            forall|n: int| #[trigger] self.accepts_read(n) == (n >= 4 && n % 2 == 0),
            forall|n: int| #[trigger] self.accepts_write(n),
            forall|b: Seq<u8>| #[trigger] self.write_image(b) == apply_collation(b, self.collation_spec()),
            forall|p: int, n: int| #[trigger] self.read_ok(p, n),
            self.infallible() && self.commit_ok(),
    {
    }
}

impl BuildIO for RawDiskIO {
    closed spec fn stream(&self) -> Seq<u8> {
        self.data@
    }

    closed spec fn staged(&self) -> Seq<u8> {
        self.data@
    }

    closed spec fn position(&self) -> int {
        self.pos as int
    }

    closed spec fn collation_spec(&self) -> BuildIODataCollation {
        self.collation
    }

    closed spec fn path_spec(&self) -> Seq<char> {
        self.file_path@
    }

    closed spec fn accepts_read(&self, n: int) -> bool {
        n >= 4 && n % 2 == 0
    }

    closed spec fn accepts_write(&self, n: int) -> bool {
        true
    }

    closed spec fn infallible(&self) -> bool {
        true
    }

    closed spec fn read_ok(&self, pos: int, n: int) -> bool {
        true
    }

    closed spec fn commit_ok(&self) -> bool {
        true
    }

    closed spec fn backend(&self) -> nat {
        0
    }

    closed spec fn write_image(&self, buf: Seq<u8>) -> Seq<u8> {
        apply_collation(buf, self.collation)
    }

    closed spec fn inv(&self) -> bool {
        &&& self.size == self.data@.len()
        &&& self.pos <= self.data@.len()
        &&& self.data@.len() <= usize::MAX
    }

    proof fn lemma_inv(&self) {
    }

    fn file_path(&self) -> (r: String) {
        self.file_path.clone()
    }

    fn collation(&self) -> (r: BuildIODataCollation) {
        self.collation
    }

    fn len(&self) -> (r: u64) {
        self.size
    }

    fn seek(&mut self, pos: u64) -> (r: Result<u64, BuildIOError>) {
        if pos <= self.data.len() as u64 {
            self.pos = pos as usize;
            Ok(pos)
        } else {
            Err(BuildIOError::OutOfRange)
        }
    }

    fn read(&mut self, buf: &mut Vec<u8>) -> (r: Result<usize, BuildIOError>) {
        if buf.len() < 4 || buf.len() % 2 == 1 {
            return Err(BuildIOError::BufferLength);
        }
        let k = image_read(&self.data, self.pos, buf, self.collation);
        self.pos = self.pos + k;
        Ok(k)
    }

    fn write(&mut self, buf: &Vec<u8>) -> (r: Result<usize, BuildIOError>) {
        let n = buf.len();
        let mut img = buf.clone();
        let _ = BuildIODataCollation::convert_raw_data(&mut img, self.collation);
        let k = if n <= self.data.len() - self.pos { n } else { self.data.len() - self.pos };
        image_write(&mut self.data, self.pos, &img);
        self.pos = self.pos + k;
        Ok(k)
    }

    fn commit(&mut self) -> (r: Result<(), BuildIOError>) {
        Ok(())
    }
}

/// A disk image: a compressed hunk container where the path ends in `.chd`
/// or `.dif`, a raw image otherwise.
pub enum DiskIO {
    Raw(RawDiskIO),
    CompressedHunk(CompressedHunkDiskIO),
}

impl DiskIO {
    /// Opens `image` as the kind of disk image that `file_path` names; `diff`
    /// is the overlay of a container, where there is one.
    pub fn open(file_path: String, collation: Option<BuildIODataCollation>, image: Vec<u8>, diff: Option<Vec<u8>>) -> (r: Result<DiskIO, BuildIOError>)
        ensures
            r is Ok ==> r->Ok_0.inv() && r->Ok_0.position() == 0 && r->Ok_0.path_spec() == file_path@
                && r->Ok_0.collation_spec() == (match collation { Some(c) => c, None => BuildIODataCollation::Raw }),
            !is_container_name(file_path@) ==> (r matches Ok(DiskIO::Raw(d)) && d.stream() == image@ && d.infallible()),
            !is_container_name(file_path@) ==> r is Ok && r->Ok_0.stream() == image@ && r->Ok_0.infallible() && r->Ok_0.backend() == 0,
            is_container_name(file_path@) && r is Ok ==> r->Ok_0.backend() == 1,
            is_container_name(file_path@) ==> (r is Ok <==> hunk_open_ok(image@, image_view(diff))),
            (r matches Ok(DiskIO::CompressedHunk(d)) ==> is_container_name(file_path@)
                && d.stream() == container_stream(d.container(), d.hunk_bytes(), d.hunks()) && d.staged() == d.stream()),
    {
        match container_name_matches(file_path.as_str()) {
            Some(true) => {
                let d = CompressedHunkDiskIO::open(file_path, collation, image, diff)?;
                Ok(DiskIO::CompressedHunk(d))
            },
            _ => Ok(DiskIO::Raw(RawDiskIO::open(file_path, collation, image))),
        }
    }
}

impl DiskIO {
    /// The rules of a disk handle: reads move whole 16-bit words, four bytes
    /// at least, as do writes to a container; a write stores the collated
    /// buffer.
    pub proof fn lemma_rules(&self)
        ensures
            forall|n: int| #[trigger] self.accepts_read(n) == (n >= 4 && n % 2 == 0),
            forall|n: int| n >= 4 && n % 2 == 0 ==> #[trigger] self.accepts_write(n),
            forall|b: Seq<u8>| #[trigger] self.write_image(b) == apply_collation(b, self.collation_spec()),
            self.backend() == if self is Raw { 0nat } else { 1nat },
    {
    }
}

impl BuildIO for DiskIO {
    closed spec fn stream(&self) -> Seq<u8> {
        match self {
            DiskIO::Raw(d) => d.stream(),
            DiskIO::CompressedHunk(d) => d.stream(),
        }
    }

    closed spec fn staged(&self) -> Seq<u8> {
        match self {
            DiskIO::Raw(d) => d.staged(),
            DiskIO::CompressedHunk(d) => d.staged(),
        }
    }

    closed spec fn position(&self) -> int {
        match self {
            DiskIO::Raw(d) => d.position(),
            DiskIO::CompressedHunk(d) => d.position(),
        }
    }

    closed spec fn collation_spec(&self) -> BuildIODataCollation {
        match self {
            DiskIO::Raw(d) => d.collation_spec(),
            DiskIO::CompressedHunk(d) => d.collation_spec(),
        }
    }

    closed spec fn path_spec(&self) -> Seq<char> {
        match self {
            DiskIO::Raw(d) => d.path_spec(),
            DiskIO::CompressedHunk(d) => d.path_spec(),
        }
    }

    closed spec fn accepts_read(&self, n: int) -> bool {
        match self {
            DiskIO::Raw(d) => d.accepts_read(n),
            DiskIO::CompressedHunk(d) => d.accepts_read(n),
        }
    }

    closed spec fn accepts_write(&self, n: int) -> bool {
        match self {
            DiskIO::Raw(d) => d.accepts_write(n),
            DiskIO::CompressedHunk(d) => d.accepts_write(n),
        }
    }

    closed spec fn infallible(&self) -> bool {
        match self {
            DiskIO::Raw(d) => d.infallible(),
            DiskIO::CompressedHunk(d) => d.infallible(),
        }
    }

    closed spec fn read_ok(&self, pos: int, n: int) -> bool {
        match self {
            DiskIO::Raw(d) => d.read_ok(pos, n),
            DiskIO::CompressedHunk(d) => d.read_ok(pos, n),
        }
    }

    closed spec fn commit_ok(&self) -> bool {
        match self {
            DiskIO::Raw(d) => d.commit_ok(),
            DiskIO::CompressedHunk(d) => d.commit_ok(),
        }
    }

    closed spec fn backend(&self) -> nat {
        match self {
            DiskIO::Raw(_) => 0,
            DiskIO::CompressedHunk(_) => 1,
        }
    }

    closed spec fn write_image(&self, buf: Seq<u8>) -> Seq<u8> {
        match self {
            DiskIO::Raw(d) => d.write_image(buf),
            DiskIO::CompressedHunk(d) => d.write_image(buf),
        }
    }

    closed spec fn inv(&self) -> bool {
        match self {
            DiskIO::Raw(d) => d.inv(),
            DiskIO::CompressedHunk(d) => d.inv(),
        }
    }

    proof fn lemma_inv(&self) {
        match self {
            DiskIO::Raw(d) => d.lemma_inv(),
            DiskIO::CompressedHunk(d) => d.lemma_inv(),
        }
    }

    fn file_path(&self) -> (r: String) {
        match self {
            DiskIO::Raw(d) => d.file_path(),
            DiskIO::CompressedHunk(d) => d.file_path(),
        }
    }

    fn collation(&self) -> (r: BuildIODataCollation) {
        match self {
            DiskIO::Raw(d) => d.collation(),
            DiskIO::CompressedHunk(d) => d.collation(),
        }
    }

    fn len(&self) -> (r: u64) {
        match self {
            DiskIO::Raw(d) => d.len(),
            DiskIO::CompressedHunk(d) => d.len(),
        }
    }

    fn seek(&mut self, pos: u64) -> (r: Result<u64, BuildIOError>) {
        match self {
            DiskIO::Raw(d) => d.seek(pos),
            DiskIO::CompressedHunk(d) => d.seek(pos),
        }
    }

    fn read(&mut self, buf: &mut Vec<u8>) -> (r: Result<usize, BuildIOError>) {
        match self {
            DiskIO::Raw(d) => d.read(buf),
            DiskIO::CompressedHunk(d) => d.read(buf),
        }
    }

    fn write(&mut self, buf: &Vec<u8>) -> (r: Result<usize, BuildIOError>) {
        match self {
            DiskIO::Raw(d) => d.write(buf),
            DiskIO::CompressedHunk(d) => d.write(buf),
        }
    }

    fn commit(&mut self) -> (r: Result<(), BuildIOError>) {
        match self {
            DiskIO::Raw(d) => d.commit(),
            DiskIO::CompressedHunk(d) => d.commit(),
        }
    }
}

proof fn lemma_writes_len(base: Seq<u8>, ws: Seq<HunkWriteInfo>, hs: int, n: int)
    requires
        hs > 0,
        base.len() == n * hs,
        forall|i: int| 0 <= i < ws.len() ==> confined(#[trigger] ws[i], hs, n),
    ensures
        apply_hunk_writes(base, ws, hs).len() == base.len(),
    decreases ws.len(),
{
    if ws.len() > 0 {
        let rest = ws.drop_last();
        assert forall|i: int| 0 <= i < rest.len() implies confined(#[trigger] rest[i], hs, n) by {
            assert(rest[i] == ws[i]);
        }
        lemma_writes_len(base, rest, hs, n);
        let w = ws.last();
        assert(confined(ws[ws.len() - 1], hs, n));
        assert(w.hunk_index * hs + hs <= n * hs) by (nonlinear_arith)
            requires w.hunk_index < n, hs > 0;
    }
}

} // verus!
