//! ROM images: one raw image, or a pair of chip images interleaved every other
//! pair of bytes (`[c0, c0, c1, c1]`).

use vstd::prelude::*;
use crate::buildio::{apply_collation, read_result, splice, image_read, image_write, BuildIO, BuildIODataCollation, BuildIOError};
use crate::bytes::filled;

verus! {

/// Byte `j` of a chip image, zero past its end.
pub open spec fn chip_byte(chip: Seq<u8>, j: int) -> u8 {
    if 0 <= j < chip.len() {
        chip[j]
    } else {
        0
    }
}

/// The chip holding logical byte `i` of a pair (0 or 1).
pub open spec fn chip_of(i: int) -> int {
    (i / 2) % 2
}

/// Where logical byte `i` lies in its chip.
pub open spec fn chip_offset(i: int) -> int {
    (i / 4) * 2 + i % 2
}

/// The logical image of a chip pair: twice as long as chip 0.
pub open spec fn interleave(c0: Seq<u8>, c1: Seq<u8>) -> Seq<u8> {
    Seq::new(
        2 * c0.len(),
        |i: int| if chip_of(i) == 0 { chip_byte(c0, chip_offset(i)) } else { chip_byte(c1, chip_offset(i)) },
    )
}

/// The bytes of logical image `s` that chip `c` holds, one pair for every four
/// logical bytes begun, zero where `s` ends first.
pub open spec fn chip_share(s: Seq<u8>, c: int) -> Seq<u8> {
    Seq::new(
        (((s.len() + 3) / 4) * 2) as nat,
        |j: int| {
            let i = (j / 2) * 4 + c * 2 + j % 2;
            if i < s.len() {
                s[i]
            } else {
                0
            }
        },
    )
}

/// What a ROM write of `buf` stores: on a chip pair a buffer that ends half
/// way through a four-byte group is padded with zeros for the second chip.
pub open spec fn rom_write_image(buf: Seq<u8>, c: BuildIODataCollation) -> Seq<u8> {
    if c == BuildIODataCollation::StrippedROMs && buf.len() % 4 == 2 {
        buf + seq![0u8, 0u8]
    } else {
        apply_collation(buf, c)
    }
}

/// Buffer lengths that a ROM handle moves: on a chip pair whole 16-bit words,
/// four bytes at least.
pub open spec fn rom_accepts(c: BuildIODataCollation, n: int) -> bool {
    c != BuildIODataCollation::StrippedROMs || (n >= 4 && n % 2 == 0)
}

/// A ROM image held in memory; writes change it at once.
pub struct ROMIO {
    file_path: String,
    collation: BuildIODataCollation,
    size: u64,
    data: Vec<u8>,
    pos: usize,
}

/// Interleaves two chip images into one logical image.
pub fn interleave_chips(c0: &Vec<u8>, c1: &Vec<u8>) -> (r: Result<Vec<u8>, BuildIOError>)
    ensures
        c0@.len() * 2 <= usize::MAX ==> r is Ok && r->Ok_0@ == interleave(c0@, c1@),
        c0@.len() * 2 > usize::MAX ==> r == Err::<Vec<u8>, BuildIOError>(BuildIOError::OutOfRange),
{
    if c0.len() > usize::MAX / 2 {
        return Err(BuildIOError::OutOfRange);
    }
    let n = c0.len() * 2;
    let mut out: Vec<u8> = Vec::new();
    let mut i: usize = 0;
    while i < n
        invariant
            n == 2 * c0@.len(),
            i <= n,
            out@.len() == i,
            forall|j: int| 0 <= j < i ==> out@[j] == interleave(c0@, c1@)[j],
        decreases n - i,
    {
        let j = (i / 4) * 2 + i % 2;
        let b = if (i / 2) % 2 == 0 {
            if j < c0.len() { c0[j] } else { 0 }
        } else {
            if j < c1.len() { c1[j] } else { 0 }
        };
        out.push(b);
        i = i + 1;
    }
    assert(out@ =~= interleave(c0@, c1@));
    Ok(out)
}

/// The image that chip `chip` (0 or 1) holds of the logical image `s`.
pub fn split_chip(s: &Vec<u8>, chip: usize) -> (r: Vec<u8>)
    requires
        chip < 2,
    ensures
        r@ == chip_share(s@, chip as int),
{
    let len = s.len();
    let groups = len / 4 + if len % 4 == 0 { 0 } else { 1 };
    let n = groups * 2;
    assert(n == ((len + 3) / 4) * 2);
    let mut out: Vec<u8> = Vec::new();
    let mut j: usize = 0;
    while j < n
        invariant
            n == ((s@.len() + 3) / 4) * 2,
            n <= s@.len() + 3,
            len == s@.len(),
            chip < 2,
            j <= n,
            out@.len() == j,
            forall|t: int| 0 <= t < j ==> out@[t] == chip_share(s@, chip as int)[t],
        decreases n - j,
    {
        let i = (j / 2) * 4 + chip * 2 + j % 2;
        let b = if i < len { s[i] } else { 0 };
        out.push(b);
        j = j + 1;
    }
    assert(out@ =~= chip_share(s@, chip as int));
    out
}

impl ROMIO {
    /// Opens a ROM image. On a chip pair (`StrippedROMs`) both chip images
    /// are needed: `image` is chip 0 and `second_chip` chip 1; otherwise
    /// `image` is the whole image. The logical size of a pair is twice chip 0.
    pub fn open(file_path: String, collation: Option<BuildIODataCollation>, image: Vec<u8>, second_chip: Option<Vec<u8>>) -> (r: Result<ROMIO, BuildIOError>)
        ensures
            ({
                let c = match collation { Some(c) => c, None => BuildIODataCollation::Raw };
                &&& c == BuildIODataCollation::StrippedROMs && second_chip is None ==> r == Err::<ROMIO, BuildIOError>(BuildIOError::NotFound)
                &&& c == BuildIODataCollation::StrippedROMs && second_chip is Some && image@.len() * 2 > usize::MAX ==> r == Err::<ROMIO, BuildIOError>(BuildIOError::OutOfRange)
                &&& c == BuildIODataCollation::StrippedROMs && second_chip is Some && image@.len() * 2 <= usize::MAX ==> r is Ok && r->Ok_0.stream() == interleave(image@, second_chip->Some_0@)
                &&& c != BuildIODataCollation::StrippedROMs ==> r is Ok && r->Ok_0.stream() == image@
                &&& r is Ok ==> r->Ok_0.inv() && r->Ok_0.infallible() && r->Ok_0.position() == 0 && r->Ok_0.collation_spec() == c && r->Ok_0.path_spec() == file_path@
            }),
    {
        let c = match collation {
            Some(c) => c,
            None => BuildIODataCollation::Raw,
        };
        let data = if c == BuildIODataCollation::StrippedROMs {
            match second_chip {
                Some(c1) => match interleave_chips(&image, &c1) {
                    Ok(d) => d,
                    Err(e) => {
                        return Err(e);
                    },
                },
                None => {
                    return Err(BuildIOError::NotFound);
                },
            }
        } else {
            image
        };
        let size = data.len() as u64;
        assert(data@.len() <= usize::MAX) by {
            assert(data.len() == data@.len());
        }
        Ok(ROMIO { file_path, collation: c, size, data, pos: 0 })
    }

    /// A new zero-filled image of `size` logical bytes.
    pub fn create(file_path: String, collation: Option<BuildIODataCollation>, size: u64) -> (r: Result<ROMIO, BuildIOError>)
        ensures
            size <= usize::MAX ==> r is Ok && r->Ok_0.stream() == Seq::new(size as nat, |i: int| 0u8),
            size > usize::MAX ==> r == Err::<ROMIO, BuildIOError>(BuildIOError::OutOfRange),
            r is Ok ==> r->Ok_0.inv() && r->Ok_0.infallible() && r->Ok_0.position() == 0 && r->Ok_0.path_spec() == file_path@
                && r->Ok_0.collation_spec() == (match collation { Some(c) => c, None => BuildIODataCollation::Raw }),
    {
        let c = match collation {
            Some(c) => c,
            None => BuildIODataCollation::Raw,
        };
        if size > usize::MAX as u64 {
            return Err(BuildIOError::OutOfRange);
        }
        let data = filled(0, size as usize);
        Ok(ROMIO { file_path, collation: c, size, data, pos: 0 })
    }

    /// The images to store: the whole image, or chip 0 and chip 1 of a pair.
    pub fn file_images(&self) -> (r: (Vec<u8>, Option<Vec<u8>>))
        ensures
            self.collation_spec() == BuildIODataCollation::StrippedROMs ==> r.0@ == chip_share(self.stream(), 0) && r.1 is Some
                && r.1->Some_0@ == chip_share(self.stream(), 1),
            self.collation_spec() != BuildIODataCollation::StrippedROMs ==> r.0@ == self.stream() && r.1 is None,
    {
        if self.collation == BuildIODataCollation::StrippedROMs {
            (split_chip(&self.data, 0), Some(split_chip(&self.data, 1)))
        } else {
            (self.data.clone(), None)
        }
    }
}

/// Where the second chip keeps logical bytes `n` and `n + 1` when `n` ends
/// half way through a four-byte group.
proof fn lemma_second_chip_pair(n: int)
    requires
        n >= 2,
        n % 4 == 2,
    ensures
        ({
            let j = (n - 2) / 2;
            &&& (j / 2) * 4 + 2 + j % 2 == n
            &&& ((j + 1) / 2) * 4 + 2 + (j + 1) % 2 == n + 1
        }),
{
}

/// On a chip pair, bytes written from position 0 read back unchanged from
/// position 0; a write that ends half way through a four-byte group leaves
/// zeros in the second chip's trailing pair. `h` is the handle before the
/// write, `after` the handle that the write leaves.
#[verifier::rlimit(40)]
pub proof fn lemma_stripped_round_trip(h: ROMIO, after: ROMIO, buf: Seq<u8>, out: Seq<u8>, wide: Seq<u8>)
    requires
        h.inv(),
        h.collation_spec() == BuildIODataCollation::StrippedROMs,
        buf.len() >= 4,
        buf.len() % 2 == 0,
        buf.len() <= h.stream().len(),
        out.len() == buf.len(),
        after.staged() == splice(h.staged(), 0, h.write_image(buf)),
    ensures
        read_result(after.stream(), 0, out, h.collation_spec()) == buf,
        buf.len() % 4 == 2 ==> chip_share(after.stream(), 1)[(buf.len() - 2) / 2] == 0
            && chip_share(after.stream(), 1)[(buf.len() - 2) / 2 + 1] == 0,
        buf.len() % 4 == 2 && buf.len() + 2 <= h.stream().len() && wide.len() == buf.len() + 2
            ==> read_result(after.stream(), 0, wide, h.collation_spec()) == buf + seq![0u8, 0u8],
{
    assert(after.stream() == splice(h.stream(), 0, h.write_image(buf)));
    let img = rom_write_image(buf, BuildIODataCollation::StrippedROMs);
    assert(h.write_image(buf) == img);
    let s = h.stream();
    let after = splice(s, 0, img);
    let n = buf.len() as int;
    assert(after.len() == s.len());
    assert forall|i: int| 0 <= i < n implies after[i] == buf[i] by {
        assert(img[i] == buf[i]);
    }
    assert(read_result(after, 0, out, h.collation_spec()) =~= buf);
    if n % 4 == 2 && n + 2 <= s.len() && wide.len() == n + 2 {
        assert(after[n] == 0u8 && after[n + 1] == 0u8);
        assert(read_result(after, 0, wide, h.collation_spec()) =~= buf + seq![0u8, 0u8]);
    }
    if n % 4 == 2 {
        lemma_second_chip_pair(n);
        let share = chip_share(after, 1);
        let j = (n - 2) / 2;
        if n < s.len() {
            assert(img[n] == 0u8);
        }
        if n + 1 < s.len() {
            assert(img[n + 1] == 0u8);
        }
        assert(share[j] == 0);
        assert(share[j + 1] == 0);
    }
}

impl ROMIO {
    /// A ROM write takes effect at once: what reads return is what a commit
    /// would store.
    pub proof fn lemma_writes_at_once(&self)
        ensures
            self.stream() == self.staged(),
    {
    }

    /// The rules of a ROM handle: on a chip pair reads and writes move whole
    /// 16-bit words, four bytes at least, and any buffer otherwise; a write
    /// stores `rom_write_image` of the buffer; nothing fails.
    pub proof fn lemma_rules(&self)
        ensures
            forall|n: int| #[trigger] self.accepts_read(n) == rom_accepts(self.collation_spec(), n),
            forall|n: int| #[trigger] self.accepts_write(n) == rom_accepts(self.collation_spec(), n),
            forall|b: Seq<u8>| #[trigger] self.write_image(b) == rom_write_image(b, self.collation_spec()),
            forall|p: int, n: int| #[trigger] self.read_ok(p, n),
            self.infallible() && self.commit_ok(),
    {
    }
}

impl BuildIO for ROMIO {
    closed spec fn stream(&self) -> Seq<u8> {
        self.data@
    }

    closed spec fn staged(&self) -> Seq<u8> {
        self.data@
    }

    closed spec fn position(&self) -> int {
        self.pos as int
    }

    closed spec fn collation_spec(&self) -> BuildIODataCollation {
        self.collation
    }

    closed spec fn path_spec(&self) -> Seq<char> {
        self.file_path@
    }

    closed spec fn accepts_read(&self, n: int) -> bool {
        rom_accepts(self.collation, n)
    }

    closed spec fn accepts_write(&self, n: int) -> bool {
        rom_accepts(self.collation, n)
    }

    closed spec fn infallible(&self) -> bool {
        true
    }

    closed spec fn read_ok(&self, pos: int, n: int) -> bool {
        true
    }

    closed spec fn commit_ok(&self) -> bool {
        true
    }

    closed spec fn backend(&self) -> nat {
        0
    }

    closed spec fn write_image(&self, buf: Seq<u8>) -> Seq<u8> {
        rom_write_image(buf, self.collation)
    }

    closed spec fn inv(&self) -> bool {
        &&& self.size == self.data@.len()
        &&& self.pos <= self.data@.len()
        &&& self.data@.len() <= usize::MAX
    }

    proof fn lemma_inv(&self) {
    }

    fn file_path(&self) -> (r: String) {
        self.file_path.clone()
    }

    fn collation(&self) -> (r: BuildIODataCollation) {
        self.collation
    }

    fn len(&self) -> (r: u64) {
        self.size
    }

    fn seek(&mut self, pos: u64) -> (r: Result<u64, BuildIOError>) {
        if pos <= self.data.len() as u64 {
            self.pos = pos as usize;
            Ok(pos)
        } else {
            Err(BuildIOError::OutOfRange)
        }
    }

    fn read(&mut self, buf: &mut Vec<u8>) -> (r: Result<usize, BuildIOError>) {
        if self.collation == BuildIODataCollation::StrippedROMs && (buf.len() < 4 || buf.len() % 2 == 1) {
            return Err(BuildIOError::BufferLength);
        }
        let k = image_read(&self.data, self.pos, buf, self.collation);
        self.pos = self.pos + k;
        Ok(k)
    }

    fn write(&mut self, buf: &Vec<u8>) -> (r: Result<usize, BuildIOError>) {
        let n = buf.len();
        if self.collation == BuildIODataCollation::StrippedROMs && (n < 4 || n % 2 == 1) {
            return Err(BuildIOError::BufferLength);
        }
        let mut img = buf.clone();
        if self.collation == BuildIODataCollation::StrippedROMs && n % 4 == 2 {
            img.push(0);
            img.push(0);
            assert(img@ =~= buf@ + seq![0u8, 0u8]);
        } else {
            let _ = BuildIODataCollation::convert_raw_data(&mut img, self.collation);
        }
        let k = if n <= self.data.len() - self.pos { n } else { self.data.len() - self.pos };
        image_write(&mut self.data, self.pos, &img);
        self.pos = self.pos + k;
        Ok(k)
    }

    fn commit(&mut self) -> (r: Result<(), BuildIOError>) {
        Ok(())
    }
}

} // verus!
