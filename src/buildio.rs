//! The storage capability shared by every backend, and the byte collations
//! applied to data that crosses it.

use vstd::prelude::*;

verus! {

/// How the bytes of an image are arranged relative to the logical stream.
#[derive(Debug, Clone, Copy, PartialEq, Eq, Structural)]
pub enum BuildIODataCollation {
    /// Bytes as they are.
    Raw,
    /// Two chip images interleaved every other pair of bytes.
    StrippedROMs,
    /// Bytes swapped within each 16-bit word: `[1234] => [2143]`.
    ByteSwapped16,
    /// 16-bit words swapped within each 32-bit word: `[1234] => [3412]`.
    ByteSwapped1632,
}

/// Failures of the storage layer.
#[derive(Debug, Clone, Copy, PartialEq, Eq, Structural)]
pub enum BuildIOError {
    /// A buffer shorter than four bytes, or of odd length, where the backend
    /// moves whole 16-bit words.
    BufferLength,
    /// A buffer whose length is not a whole number of collation words.
    LengthMismatch,
    /// A position past the end of the stream.
    OutOfRange,
    /// The bytes of a container do not parse.
    Format,
    /// An image that the backend needs was not supplied.
    NotFound,
}

/// Whether a buffer of `n` bytes is made of whole words of collation `c`.
pub open spec fn collation_fits(n: int, c: BuildIODataCollation) -> bool {
    match c {
        BuildIODataCollation::ByteSwapped16 => n % 2 == 0,
        BuildIODataCollation::ByteSwapped1632 => n % 4 == 0,
        _ => true,
    }
}

/// The buffer `s` with the byte reordering of `c` applied.
pub open spec fn collate(s: Seq<u8>, c: BuildIODataCollation) -> Seq<u8> {
    match c {
        BuildIODataCollation::ByteSwapped16 => Seq::new(
            s.len(),
            |i: int| if i % 2 == 0 { s[i + 1] } else { s[i - 1] },
        ),
        BuildIODataCollation::ByteSwapped1632 => Seq::new(
            s.len(),
            |i: int| if i % 4 < 2 { s[i + 2] } else { s[i - 2] },
        ),
        _ => s,
    }
}

/// What a backend hands out for the buffer `s`: reordered where the length
/// fits the collation, unchanged where it does not.
pub open spec fn apply_collation(s: Seq<u8>, c: BuildIODataCollation) -> Seq<u8> {
    if collation_fits(s.len() as int, c) {
        collate(s, c)
    } else {
        s
    }
}

/// Reordering twice gives back the buffer: each collation is its own inverse.
pub proof fn lemma_collation_round_trip(s: Seq<u8>, c: BuildIODataCollation)
    requires
        collation_fits(s.len() as int, c),
    ensures
        collate(collate(s, c), c) == s,
{
    assert(collate(collate(s, c), c) =~= s);
}

/// How many of `n` requested bytes lie in a stream of `len` bytes from `pos`.
pub open spec fn span(len: int, pos: int, n: int) -> int {
    if pos + n <= len {
        n
    } else if pos <= len {
        len - pos
    } else {
        0
    }
}

/// The buffer after a read of `old_buf.len()` bytes at `pos`: the bytes that
/// the stream holds there, the rest of the buffer kept, then the collation.
pub open spec fn read_result(
    stream: Seq<u8>,
    pos: int,
    old_buf: Seq<u8>,
    c: BuildIODataCollation,
) -> Seq<u8> {
    let k = span(stream.len() as int, pos, old_buf.len() as int);
    apply_collation(stream.subrange(pos, pos + k) + old_buf.subrange(k, old_buf.len() as int), c)
}

/// The stream `s` with `data` written from `pos`, cut at the end of `s`.
pub open spec fn splice(s: Seq<u8>, pos: int, data: Seq<u8>) -> Seq<u8> {
    let k = span(s.len() as int, pos, data.len() as int);
    s.subrange(0, pos) + data.subrange(0, k) + s.subrange(pos + k, s.len() as int)
}

/// Reads `old(buf).len()` bytes of the image `data` at `pos` into `buf`, as
/// every in-memory backend does. Returns how many bytes came from the image.
pub fn image_read(data: &Vec<u8>, pos: usize, buf: &mut Vec<u8>, c: BuildIODataCollation) -> (k: usize)
    requires
        pos <= data@.len(),
    ensures
        k == span(data@.len() as int, pos as int, old(buf)@.len() as int),
        final(buf)@ == read_result(data@, pos as int, old(buf)@, c),
{
    let n = buf.len();
    let k = if n <= data.len() - pos { n } else { data.len() - pos };
    crate::bytes::copy_range(buf, 0, data, pos, k);
    assert(buf@ =~= data@.subrange(pos as int, pos + k) + old(buf)@.subrange(k as int, n as int));
    let _ = BuildIODataCollation::convert_raw_data(buf, c);
    k
}

/// Writes `img` into the image `data` from `pos`, cut at the end of `data`.
pub fn image_write(data: &mut Vec<u8>, pos: usize, img: &Vec<u8>)
    requires
        pos <= old(data)@.len(),
    ensures
        final(data)@ == splice(old(data)@, pos as int, img@),
{
    let n = img.len();
    let k = if n <= data.len() - pos { n } else { data.len() - pos };
    crate::bytes::copy_range(data, pos, img, 0, k);
}

impl BuildIODataCollation {
    /// Applies collation `collation` to `buf` in place. A buffer that is not a
    /// whole number of collation words is refused and left as it is.
    pub fn convert_raw_data(buf: &mut Vec<u8>, collation: BuildIODataCollation) -> (r: Result<(), BuildIOError>)
        ensures
            collation_fits(old(buf)@.len() as int, collation) ==> r == Ok::<(), BuildIOError>(()) && final(buf)@ == collate(old(buf)@, collation),
            !collation_fits(old(buf)@.len() as int, collation) ==> r == Err::<(), BuildIOError>(BuildIOError::LengthMismatch) && final(buf)@ == old(buf)@,
    {
        let n = buf.len();
        match collation {
            BuildIODataCollation::ByteSwapped16 => {
                if n % 2 != 0 {
                    return Err(BuildIOError::LengthMismatch);
                }
                let ghost orig = buf@;
                let mut i: usize = 0;
                while i < n
                    invariant
                        n == orig.len(),
                        n % 2 == 0,
                        i % 2 == 0,
                        i <= n,
                        buf@.len() == n,
                        forall|j: int| 0 <= j < i ==> buf@[j] == collate(orig, collation)[j],
                        forall|j: int| i <= j < n ==> buf@[j] == orig[j],
                        collation == BuildIODataCollation::ByteSwapped16,
                    decreases n - i,
                {
                    let a = buf[i];
                    let b = buf[i + 1];
                    buf.set(i, b);
                    buf.set(i + 1, a);
                    i = i + 2;
                }
                assert(buf@ =~= collate(orig, collation));
                Ok(())
            },
            BuildIODataCollation::ByteSwapped1632 => {
                if n % 4 != 0 {
                    return Err(BuildIOError::LengthMismatch);
                }
                let ghost orig = buf@;
                let mut i: usize = 0;
                while i < n
                    invariant
                        n == orig.len(),
                        n % 4 == 0,
                        i % 4 == 0,
                        i <= n,
                        buf@.len() == n,
                        forall|j: int| 0 <= j < i ==> buf@[j] == collate(orig, collation)[j],
                        forall|j: int| i <= j < n ==> buf@[j] == orig[j],
                        collation == BuildIODataCollation::ByteSwapped1632,
                    decreases n - i,
                {
                    let a = buf[i];
                    let b = buf[i + 1];
                    let c = buf[i + 2];
                    let d = buf[i + 3];
                    buf.set(i, c);
                    buf.set(i + 1, d);
                    buf.set(i + 2, a);
                    buf.set(i + 3, b);
                    i = i + 4;
                }
                assert(buf@ =~= collate(orig, collation));
                Ok(())
            },
            _ => Ok(()),
        }
    }
}

/// A seekable, readable, writable logical byte stream over a stored image.
///
/// `stream` is what reads return; `staged` is what the stream becomes after
/// `commit` (backends that buffer their writes keep the two apart until then).
pub trait BuildIO: Sized {
    spec fn stream(&self) -> Seq<u8>;

    spec fn staged(&self) -> Seq<u8>;

    spec fn position(&self) -> int;

    spec fn collation_spec(&self) -> BuildIODataCollation;

    spec fn path_spec(&self) -> Seq<char>;

    /// Whether a read into a buffer of `n` bytes is taken.
    spec fn accepts_read(&self, n: int) -> bool;

    /// Whether a write from a buffer of `n` bytes is taken.
    spec fn accepts_write(&self, n: int) -> bool;

    /// Whether reads and commits always succeed (no decoding can fail).
    spec fn infallible(&self) -> bool;

    /// Whether a taken read of `n` bytes at `pos` succeeds: whatever it
    /// covers decodes.
    spec fn read_ok(&self, pos: int, n: int) -> bool;

    /// Whether `commit` succeeds.
    spec fn commit_ok(&self) -> bool;

    /// Which kind of store holds the stream, for a handle that dispatches
    /// between kinds; fixed for the handle's life.
    spec fn backend(&self) -> nat;

    /// The bytes that a write of `buf` stores from the current position.
    spec fn write_image(&self, buf: Seq<u8>) -> Seq<u8>;

    spec fn inv(&self) -> bool;

    proof fn lemma_inv(&self)
        requires
            self.inv(),
        ensures
            0 <= self.position() <= self.stream().len(),
            self.stream().len() == self.staged().len(),
            self.stream().len() <= usize::MAX,
            forall|n: int| n >= 4 && n % 2 == 0 ==> #[trigger] self.accepts_read(n) && self.accepts_write(n),
            self.infallible() ==> self.commit_ok() && forall|p: int, n: int| #[trigger] self.read_ok(p, n),
    ;

    fn file_path(&self) -> (r: String)
        ensures
            r@ == self.path_spec(),
    ;

    fn collation(&self) -> (r: BuildIODataCollation)
        ensures
            r == self.collation_spec(),
    ;

    fn len(&self) -> (r: u64)
        requires
            self.inv(),
        ensures
            r == self.stream().len(),
    ;

    fn seek(&mut self, pos: u64) -> (r: Result<u64, BuildIOError>)
        requires
            old(self).inv(),
        ensures
            final(self).inv(),
            final(self).stream() == old(self).stream(),
            final(self).staged() == old(self).staged(),
            final(self).collation_spec() == old(self).collation_spec(),
            final(self).path_spec() == old(self).path_spec(),
            final(self).infallible() == old(self).infallible(),
            forall|b: Seq<u8>| #[trigger] final(self).write_image(b) == old(self).write_image(b),
            forall|p: int, n: int| #[trigger] final(self).read_ok(p, n) == old(self).read_ok(p, n),
            final(self).backend() == old(self).backend(),
            forall|n: int| #[trigger] final(self).accepts_write(n) == old(self).accepts_write(n),
            pos <= old(self).stream().len() ==> r == Ok::<u64, BuildIOError>(pos) && final(self).position() == pos,
            pos > old(self).stream().len() ==> r == Err::<u64, BuildIOError>(BuildIOError::OutOfRange) && final(self).position() == old(self).position(),
    ;

    fn read(&mut self, buf: &mut Vec<u8>) -> (r: Result<usize, BuildIOError>)
        requires
            old(self).inv(),
        ensures
            final(self).inv(),
            final(self).stream() == old(self).stream(),
            final(self).staged() == old(self).staged(),
            final(self).collation_spec() == old(self).collation_spec(),
            final(self).path_spec() == old(self).path_spec(),
            final(self).infallible() == old(self).infallible(),
            final(buf)@.len() == old(buf)@.len(),
            forall|b: Seq<u8>| #[trigger] final(self).write_image(b) == old(self).write_image(b),
            forall|p: int, n: int| #[trigger] final(self).read_ok(p, n) == old(self).read_ok(p, n),
            final(self).backend() == old(self).backend(),
            !old(self).accepts_read(old(buf)@.len() as int) ==> r == Err::<usize, BuildIOError>(BuildIOError::BufferLength)
                && final(buf)@ == old(buf)@ && final(self).position() == old(self).position(),
            old(self).accepts_read(old(buf)@.len() as int) && old(self).read_ok(old(self).position(), old(buf)@.len() as int) ==> r is Ok,
            r is Ok ==> r->Ok_0 == span(old(self).stream().len() as int, old(self).position(), old(buf)@.len() as int)
                && final(buf)@ == read_result(old(self).stream(), old(self).position(), old(buf)@, old(self).collation_spec())
                && final(self).position() == old(self).position() + r->Ok_0,
    ;

    fn write(&mut self, buf: &Vec<u8>) -> (r: Result<usize, BuildIOError>)
        requires
            old(self).inv(),
        ensures
            final(self).inv(),
            final(self).collation_spec() == old(self).collation_spec(),
            final(self).path_spec() == old(self).path_spec(),
            final(self).infallible() == old(self).infallible(),
            forall|b: Seq<u8>| #[trigger] final(self).write_image(b) == old(self).write_image(b),
            forall|p: int, n: int| #[trigger] final(self).read_ok(p, n) == old(self).read_ok(p, n),
            final(self).backend() == old(self).backend(),
            !old(self).accepts_write(buf@.len() as int) ==> r == Err::<usize, BuildIOError>(BuildIOError::BufferLength) && *final(self) == *old(self),
            old(self).accepts_write(buf@.len() as int) ==> r == Ok::<usize, BuildIOError>(span(old(self).stream().len() as int, old(self).position(), buf@.len() as int) as usize)
                && final(self).staged() == splice(old(self).staged(), old(self).position(), old(self).write_image(buf@))
                && final(self).position() == old(self).position() + r->Ok_0,
    ;

    fn commit(&mut self) -> (r: Result<(), BuildIOError>)
        requires
            old(self).inv(),
        ensures
            final(self).inv(),
            final(self).collation_spec() == old(self).collation_spec(),
            final(self).path_spec() == old(self).path_spec(),
            final(self).infallible() == old(self).infallible(),
            final(self).staged() == old(self).staged(),
            forall|b: Seq<u8>| #[trigger] final(self).write_image(b) == old(self).write_image(b),
            forall|p: int, n: int| #[trigger] final(self).read_ok(p, n) == old(self).read_ok(p, n),
            final(self).backend() == old(self).backend(),
            r is Ok ==> final(self).stream() == old(self).staged(),
            old(self).commit_ok() ==> r is Ok,
    ;
}

} // verus!
