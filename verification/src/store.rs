use vstd::prelude::*;

use crate::apperror::AppError;
use crate::partition::ReadWriteSeek;

verus! {

/// An in-memory byte store: a fully verified `ReadWriteSeek` implementation
/// that behaves like an image file. Reads return as much as is available,
/// writes extend the store when the cursor stands at or beyond its end, and
/// no operation fails on a platform whose address space holds the offsets.
pub struct MemStore {
    data: Vec<u8>,
    pos: usize,
}

impl MemStore {
    /// Wrap `data` as a store with the cursor at `0`.
    pub fn from_vec(data: Vec<u8>) -> (r: MemStore)
        ensures
            r.contents() == data@,
            r.pos() == 0,
            r.inv(),
    {
        MemStore { data, pos: 0 }
    }

    /// Hand the bytes back, consuming the store.
    pub fn into_vec(self) -> (r: Vec<u8>)
        ensures
            r@ == self.contents(),
    {
        self.data
    }
}

impl ReadWriteSeek for MemStore {
    closed spec fn contents(&self) -> Seq<u8> {
        self.data@
    }

    closed spec fn pos(&self) -> int {
        self.pos as int
    }

    closed spec fn inv(&self) -> bool {
        true
    }

    fn seek(&mut self, offset: u64) -> (r: Result<u64, AppError>)
        ensures
            final(self).contents() == old(self).contents(),
            offset <= usize::MAX ==> (r matches Ok(p) && p == offset && final(self).pos()
                == offset as int),
    {
        if offset > usize::MAX as u64 {
            return Err(AppError::IoError);
        }
        self.pos = offset as usize;
        Ok(offset)
    }

    fn read(&mut self, len: usize) -> (r: Result<Vec<u8>, AppError>)
        ensures
            r matches Ok(v) && v@.len() == if old(self).pos() <= old(self).contents().len() {
                vstd::math::min(len as int, old(self).contents().len() - old(self).pos())
            } else {
                0
            },
    {
        let n: usize = if self.pos >= self.data.len() {
            0
        } else {
            let avail: usize = self.data.len() - self.pos;
            if len <= avail {
                len
            } else {
                avail
            }
        };
        let mut v: Vec<u8> = Vec::new();
        let mut i: usize = 0;
        while i < n
            invariant
                i <= n,
                self.pos + n <= self.data.len() || n == 0,
                v@.len() == i,
                forall|j: int| 0 <= j < i ==> v@[j] == self.data@[self.pos + j],
            decreases n - i,
        {
            v.push(self.data[self.pos + i]);
            i = i + 1;
        }
        proof {
            if n > 0 {
                assert(v@ =~= self.data@.subrange(self.pos as int, self.pos + n));
            }
        }
        self.pos = self.pos + n;
        Ok(v)
    }

    fn write(&mut self, buf: &Vec<u8>, limit: usize) -> (r: Result<usize, AppError>)
        ensures
            r matches Ok(n) && n == vstd::math::min(
                limit as int,
                usize::MAX - old(self).pos(),
            ),
    {
        let n: usize = if usize::MAX - self.pos < limit {
            usize::MAX - self.pos
        } else {
            limit
        };
        while self.data.len() < self.pos
            invariant
                self.pos == old(self).pos(),
                self.data@.len() >= old(self).contents().len(),
                forall|j: int|
                    0 <= j < old(self).contents().len() ==> self.data@[j] == old(self).contents()[j],
                self.data@.len() <= vstd::math::max(
                    old(self).contents().len() as int,
                    self.pos as int,
                ),
            decreases self.pos - self.data@.len(),
        {
            self.data.push(0);
        }
        let ghost filled = self.data@;
        let mut i: usize = 0;
        while i < n
            invariant
                i <= n,
                self.pos + n <= usize::MAX,
                n <= buf@.len(),
                self.pos == old(self).pos(),
                filled.len() >= self.pos,
                self.data@.len() == vstd::math::max(filled.len() as int, self.pos + i),
                forall|j: int|
                    0 <= j < filled.len() && !(self.pos <= j < self.pos + i) ==> self.data@[j]
                        == filled[j],
                forall|j: int| self.pos <= j < self.pos + i ==> self.data@[j] == buf@[j - self.pos],
            decreases n - i,
        {
            let idx: usize = self.pos + i;
            if idx < self.data.len() {
                self.data[idx] = buf[i];
            } else {
                self.data.push(buf[i]);
            }
            i = i + 1;
        }
        self.pos = self.pos + n;
        Ok(n)
    }

    fn flush(&mut self) -> (r: Result<(), AppError>)
        ensures
            r is Ok,
    {
        Ok(())
    }
}

} // verus!
