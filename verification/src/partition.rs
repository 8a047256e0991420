use vstd::prelude::*;

use crate::apperror::AppError;

verus! {

/// A seek request against a bounded region, resolved against one of three
/// reference points: the region's start, its current cursor, or its end.
#[derive(Clone, Copy, PartialEq, Eq, Structural, Debug)]
pub enum SeekFrom {
    Start(u64),
    Current(i64),
    End(i64),
}

/// The cursor position that `pos` asks for, over a region of length `size`
/// whose cursor stands at `cursor`.
pub open spec fn seek_target(size: int, cursor: int, pos: SeekFrom) -> int {
    match pos {
        SeekFrom::Start(x) => x as int,
        SeekFrom::Current(d) => cursor + d,
        SeekFrom::End(d) => size + d,
    }
}

/// Whether `pos` resolves inside `[0, size]`.
pub open spec fn seek_ok(size: int, cursor: int, pos: SeekFrom) -> bool {
    0 <= seek_target(size, cursor, pos) <= size
}

/// Re-seeking to `End(0)` always resolves to `size`, and `Start(0)` always
/// resolves to `0`, both in bounds; so on a well-formed region the former
/// always yields cursor `== size` and the latter cursor `== 0`.
pub proof fn lemma_seek_anchors(size: int, cursor: int)
    requires
        0 <= size,
    ensures
        seek_target(size, cursor, SeekFrom::End(0)) == size,
        seek_ok(size, cursor, SeekFrom::End(0)),
        seek_target(size, cursor, SeekFrom::Start(0)) == 0,
        seek_ok(size, cursor, SeekFrom::Start(0)),
{
}

/// A seekable byte store: the substrate a bounded region wraps.
///
/// An implementation models its contents as a byte sequence and its cursor
/// as a position within (or beyond) it. The contracts state only what the
/// standard read/write/seek conventions guarantee: a failed read or write
/// leaves the contents unchanged, a successful write touches exactly the
/// bytes `[pos, pos + n)` and whatever lies between the old end and `pos`
/// when it extends the store.
pub trait ReadWriteSeek: Sized {
    /// The bytes the store holds. The default stands for stores declared
    /// outside verified code, which the proofs never rely on; a verified
    /// store overrides it.
    open spec fn contents(&self) -> Seq<u8> {
        Seq::empty()
    }

    /// The store's cursor: the absolute offset the next read or write uses.
    open spec fn pos(&self) -> int {
        0
    }

    /// The store's own well-formedness.
    open spec fn inv(&self) -> bool {
        false
    }

    /// Move the cursor to the absolute offset `offset`.
    fn seek(&mut self, offset: u64) -> (r: Result<u64, AppError>)
        requires
            old(self).inv(),
        ensures
            final(self).inv(),
            final(self).contents() == old(self).contents(),
            r matches Ok(p) ==> final(self).pos() == offset as int && p == offset,
            r matches Err(e) ==> (e matches AppError::IoError),
    ;

    /// Read up to `len` bytes at the cursor, advancing it by the count
    /// actually read.
    fn read(&mut self, len: usize) -> (r: Result<Vec<u8>, AppError>)
        requires
            old(self).inv(),
        ensures
            final(self).inv(),
            final(self).contents() == old(self).contents(),
            match r {
                Ok(v) => v@.len() <= len && final(self).pos() == old(self).pos() + v@.len() && (
                v@.len() > 0 ==> old(self).pos() >= 0 && old(self).pos() + v@.len() <= final(self).contents().len() && v@ == final(self).contents().subrange(
                    old(self).pos(),
                    old(self).pos() + v@.len(),
                )),
                Err(e) => e matches AppError::IoError,
            },
    ;

    /// Write up to `limit` bytes of `buf` at the cursor, advancing it by the
    /// count actually written.
    fn write(&mut self, buf: &Vec<u8>, limit: usize) -> (r: Result<usize, AppError>)
        requires
            old(self).inv(),
            limit <= buf@.len(),
        ensures
            final(self).inv(),
            match r {
                Ok(n) => n <= limit && old(self).pos() >= 0 && final(self).pos() == old(self).pos()
                    + n && final(self).contents().len() == vstd::math::max(
                    old(self).contents().len() as int,
                    old(self).pos() + n,
                ) && (forall|i: int|
                    0 <= i < old(self).contents().len() && !(old(self).pos() <= i < old(self).pos()
                        + n) ==> final(self).contents()[i] == old(self).contents()[i]) && (forall|
                    i: int,
                |
                    old(self).pos() <= i < old(self).pos() + n ==> final(self).contents()[i]
                        == buf@[i - old(self).pos()]),
                Err(e) => final(self).contents() == old(self).contents() && (e matches
                    AppError::IoError),
            },
    ;

    /// Flush buffered state; the logical contents and cursor do not move.
    fn flush(&mut self) -> (r: Result<(), AppError>)
        requires
            old(self).inv(),
        ensures
            final(self).inv(),
            final(self).contents() == old(self).contents(),
            final(self).pos() == old(self).pos(),
            r matches Err(e) ==> (e matches AppError::IoError),
    ;
}

/// A bounded region: a clipped, offset-translated window
/// `[start_offset, start_offset + size)` over an underlying byte store,
/// with a cursor relative to the window's start.
///
/// Every access is clamped so it cannot cross `size`, and every absolute
/// operation against the store is `start_offset + cursor`: no read or write
/// through the region ever touches a byte of the store outside the window.
pub struct Partition<T: ReadWriteSeek> {
    inner: T,
    start_offset: u64,
    current_offset: u64,
    size: u64,
}

impl<T: ReadWriteSeek> Partition<T> {
    /// The window's first absolute byte offset in the store.
    pub closed spec fn start(&self) -> u64 {
        self.start_offset
    }

    /// The window's length in bytes.
    pub closed spec fn size(&self) -> u64 {
        self.size
    }

    /// The region's cursor, relative to the window's start.
    pub closed spec fn cursor(&self) -> u64 {
        self.current_offset
    }

    /// The bytes of the underlying store.
    pub closed spec fn store_contents(&self) -> Seq<u8> {
        self.inner.contents()
    }

    /// Well-formedness: the cursor stays in `[0, size]`, the window's end
    /// fits in the store's address space, and the store is well-formed.
    pub closed spec fn wf(&self) -> bool {
        &&& self.inner.inv()
        &&& self.current_offset <= self.size
        &&& self.start_offset + self.size <= u64::MAX
    }

    /// The store's cursor agrees with the region's:
    /// `start_offset + cursor`. Established by every successful operation;
    /// an underlying I/O failure may leave the store's cursor elsewhere.
    pub closed spec fn synced(&self) -> bool {
        self.inner.pos() == self.start_offset + self.current_offset
    }

    /// Open a region over `[start_offset, start_offset + size)` of `inner`,
    /// positioning the store's cursor at `start_offset` and the region's
    /// cursor at `0`. Fails, with `IoError`, only if the underlying seek
    /// fails.
    pub fn new(inner: T, start_offset: u64, size: u64) -> (r: Result<Self, AppError>)
        requires
            inner.inv(),
            start_offset + size <= u64::MAX,
        ensures
            match r {
                Ok(p) => p.wf() && p.synced() && p.start() == start_offset && p.size() == size
                    && p.cursor() == 0 && p.store_contents() == inner.contents(),
                Err(e) => e matches AppError::IoError,
            },
    {
        let mut inner = inner;
        match inner.seek(start_offset) {
            Ok(_) => Ok(Partition { inner, start_offset, current_offset: 0, size }),
            Err(e) => Err(e),
        }
    }

    /// Resolve `pos` against the window and move both cursors on success.
    ///
    /// A request outside `[0, size]` fails with `OutOfBounds` and leaves the
    /// region untouched; a request in bounds moves the store's cursor to
    /// `start_offset + target` and the region's cursor to `target`, and can
    /// fail only with the store's `IoError`.
    pub fn seek(&mut self, pos: SeekFrom) -> (r: Result<u64, AppError>)
        requires
            old(self).wf(),
        ensures
            final(self).wf(),
            final(self).start() == old(self).start(),
            final(self).size() == old(self).size(),
            final(self).store_contents() == old(self).store_contents(),
            !seek_ok(old(self).size() as int, old(self).cursor() as int, pos) ==> (r matches Err(e)
                && (e matches AppError::OutOfBounds) && *final(self) == *old(self)),
            match r {
                Ok(p) => seek_ok(old(self).size() as int, old(self).cursor() as int, pos) && final(self).cursor() == seek_target(old(self).size() as int, old(self).cursor() as int, pos)
                    && p == final(self).cursor() && final(self).synced(),
                Err(e) => final(self).cursor() == old(self).cursor() && (seek_ok(
                    old(self).size() as int,
                    old(self).cursor() as int,
                    pos,
                ) ==> (e matches AppError::IoError)),
            },
    {
        let target: i128 = match pos {
            SeekFrom::Start(x) => x as i128,
            SeekFrom::Current(d) => self.current_offset as i128 + d as i128,
            SeekFrom::End(d) => self.size as i128 + d as i128,
        };
        if target < 0 || target > self.size as i128 {
            return Err(AppError::OutOfBounds);
        }
        let t: u64 = target as u64;
        match self.inner.seek(self.start_offset + t) {
            Ok(_) => {
                self.current_offset = t;
                Ok(t)
            },
            Err(e) => Err(e),
        }
    }

    /// Read up to `len` bytes, clamped to `size - cursor` so the read cannot
    /// cross the window's end. The store is never changed, every byte
    /// returned comes from inside the window, and the cursor advances by the
    /// count actually read (which may be short: that is a short read, not an
    /// error).
    pub fn read(&mut self, len: usize) -> (r: Result<Vec<u8>, AppError>)
        requires
            old(self).wf(),
            old(self).synced(),
        ensures
            final(self).wf(),
            final(self).start() == old(self).start(),
            final(self).size() == old(self).size(),
            final(self).store_contents() == old(self).store_contents(),
            match r {
                Ok(v) => final(self).synced() && v@.len() <= len && old(self).cursor() + v@.len()
                    <= old(self).size() && final(self).cursor() == old(self).cursor() + v@.len()
                    && (v@.len() > 0 ==> old(self).start() + old(self).cursor() + v@.len() <= final(self).store_contents().len() && v@ == final(self).store_contents().subrange(
                    old(self).start() + old(self).cursor(),
                    old(self).start() + old(self).cursor() + v@.len(),
                )),
                Err(e) => final(self).cursor() == old(self).cursor() && (e matches
                    AppError::IoError),
            },
    {
        let remaining: u64 = self.size - self.current_offset;
        let want: usize = if len as u64 <= remaining {
            len
        } else {
            remaining as usize
        };
        match self.inner.read(want) {
            Ok(v) => {
                self.current_offset = self.current_offset + v.len() as u64;
                Ok(v)
            },
            Err(e) => Err(e),
        }
    }

    /// Write `buf`, clamped to `size - cursor`: a write that would cross the
    /// window's end is silently truncated rather than failing, and the count
    /// actually written is returned. No byte of the store outside
    /// `[start_offset, start_offset + size)` is ever changed, however the
    /// caller computed its buffer, and the store never grows past the
    /// window's end unless it already reached past it.
    pub fn write(&mut self, buf: &Vec<u8>) -> (r: Result<usize, AppError>)
        requires
            old(self).wf(),
            old(self).synced(),
        ensures
            final(self).wf(),
            final(self).start() == old(self).start(),
            final(self).size() == old(self).size(),
            final(self).store_contents().len() <= vstd::math::max(
                old(self).store_contents().len() as int,
                old(self).start() + old(self).size(),
            ),
            forall|i: int|
                0 <= i < old(self).store_contents().len() && !(old(self).start() <= i < old(self).start() + old(self).size()) ==> final(self).store_contents()[i] == old(self).store_contents()[i],
            match r {
                Ok(n) => final(self).synced() && n <= buf@.len() && old(self).cursor() + n <= old(self).size() && final(self).cursor() == old(self).cursor() + n && final(self).store_contents().len() == vstd::math::max(
                    old(self).store_contents().len() as int,
                    old(self).start() + old(self).cursor() + n,
                ) && (forall|i: int|
                    0 <= i < old(self).store_contents().len() && !(old(self).start() + old(self).cursor() <= i < old(self).start() + old(self).cursor() + n) ==> final(self).store_contents()[i] == old(self).store_contents()[i]) && (forall|i: int|
                    old(self).start() + old(self).cursor() <= i < old(self).start() + old(self).cursor() + n ==> final(self).store_contents()[i] == buf@[i - (old(self).start() + old(self).cursor())]),
                Err(e) => final(self).cursor() == old(self).cursor() && final(self).store_contents() == old(self).store_contents() && (e matches AppError::IoError),
            },
    {
        let remaining: u64 = self.size - self.current_offset;
        let limit: usize = if buf.len() as u64 <= remaining {
            buf.len()
        } else {
            remaining as usize
        };
        match self.inner.write(buf, limit) {
            Ok(n) => {
                self.current_offset = self.current_offset + n as u64;
                Ok(n)
            },
            Err(e) => Err(e),
        }
    }

    /// Hand the underlying store back, consuming the region.
    pub fn into_inner(self) -> (r: T)
        ensures
            r.contents() == self.store_contents(),
            self.wf() ==> r.inv(),
    {
        self.inner
    }

    /// Flush the underlying store; contents and cursors do not move.
    pub fn flush(&mut self) -> (r: Result<(), AppError>)
        requires
            old(self).wf(),
        ensures
            final(self).wf(),
            final(self).start() == old(self).start(),
            final(self).size() == old(self).size(),
            final(self).cursor() == old(self).cursor(),
            final(self).store_contents() == old(self).store_contents(),
            old(self).synced() ==> final(self).synced(),
            r matches Err(e) ==> (e matches AppError::IoError),
    {
        self.inner.flush()
    }
}

} // verus!
