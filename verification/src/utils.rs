//! Byte buffers with a position, and helpers on byte vectors.

use vstd::prelude::*;
use crate::error::{Error, IoFault};

verus! {

/// `n` zero bytes.
pub open spec fn zeros(n: nat) -> Seq<u8> {
    Seq::new(n, |i: int| 0u8)
}

/// Appends `src` to `dst`.
pub fn extend_bytes(dst: &mut Vec<u8>, src: &[u8])
    ensures
        final(dst)@ == old(dst)@ + src@,
{
    let mut i: usize = 0;
    while i < src.len()
        invariant
            i <= src.len(),
            dst@ == old(dst)@ + src@.subrange(0, i as int),
        decreases src.len() - i,
    {
        dst.push(src[i]);
        assert(dst@ =~= old(dst)@ + src@.subrange(0, i as int + 1));
        i += 1;
    }
    assert(src@.subrange(0, i as int) =~= src@);
}

/// Appends `n` zero bytes to `dst`.
pub fn extend_zeros(dst: &mut Vec<u8>, n: usize)
    ensures
        final(dst)@ == old(dst)@ + zeros(n as nat),
{
    let mut i: usize = 0;
    while i < n
        invariant
            i <= n,
            dst@ == old(dst)@ + zeros(i as nat),
        decreases n - i,
    {
        dst.push(0u8);
        assert(dst@ =~= old(dst)@ + zeros((i + 1) as nat));
        i += 1;
    }
}

/// A copy of the bytes of `src` from `start` up to, not including, `end`.
pub fn copy_range(src: &[u8], start: usize, end: usize) -> (r: Vec<u8>)
    requires
        start <= end <= src@.len(),
    ensures
        r@ == src@.subrange(start as int, end as int),
{
    let mut out: Vec<u8> = Vec::new();
    let mut i: usize = start;
    while i < end
        invariant
            start <= i <= end <= src@.len(),
            out@ == src@.subrange(start as int, i as int),
        decreases end - i,
    {
        out.push(src[i]);
        assert(out@ =~= src@.subrange(start as int, i as int + 1));
        i += 1;
    }
    out
}

/// Where a seek starts from.
#[derive(Debug, Clone, Copy, PartialEq, Eq, Structural)]
pub enum SeekFrom {
    /// An offset from the first byte.
    Start(u64),
    /// An offset from the end of the data.
    End(i64),
    /// An offset from the current position.
    Current(i64),
}

/// The position that a seek asks for, in a buffer of `len` bytes positioned at `pos`.
pub open spec fn seek_target(len: nat, pos: nat, whence: SeekFrom) -> int {
    match whence {
        SeekFrom::Start(n) => n as int,
        SeekFrom::End(n) => len + n,
        SeekFrom::Current(n) => pos + n,
    }
}

/// The data of a buffer after `buf` was written at `pos`: a gap between the end
/// of the data and `pos` is filled with zeros, bytes under `buf` are replaced,
/// and the data grows where `buf` reaches past its end.
pub open spec fn written(data: Seq<u8>, pos: nat, buf: Seq<u8>) -> Seq<u8> {
    let padded = if pos > data.len() {
        data + zeros((pos - data.len()) as nat)
    } else {
        data
    };
    let end = pos + buf.len();
    if end >= padded.len() {
        padded.subrange(0, pos as int) + buf
    } else {
        padded.subrange(0, pos as int) + buf + padded.subrange(end as int, padded.len() as int)
    }
}

/// Writing `a` and then `b` behind it is writing `a + b` at once.
pub proof fn lemma_written_append(data: Seq<u8>, pos: nat, a: Seq<u8>, b: Seq<u8>)
    ensures
        written(written(data, pos, a), pos + a.len(), b) == written(data, pos, a + b),
        written(data, pos, a).len() == if pos + a.len() >= data.len() {
            pos + a.len()
        } else {
            data.len()
        },
{
    let first = written(data, pos, a);
    assert(first.len() >= pos + a.len());
    assert(written(first, pos + a.len(), b) =~= written(data, pos, a + b));
}

/// What a read of at most `max` bytes at `pos` returns: the bytes from `pos`
/// on, as far as there are any.
pub open spec fn readable(data: Seq<u8>, pos: nat, max: nat) -> Seq<u8> {
    if pos >= data.len() {
        Seq::empty()
    } else if pos + max >= data.len() {
        data.subrange(pos as int, data.len() as int)
    } else {
        data.subrange(pos as int, (pos + max) as int)
    }
}

/// A growable byte buffer with a read and write position.
#[derive(Debug)]
pub struct ByteBuf {
    pub data: Vec<u8>,
    pub pos: usize,
}

/// An empty buffer with room for `size` bytes.
pub fn new_byte_buf(size: usize) -> (r: ByteBuf)
    ensures
        r.data@ == Seq::<u8>::empty(),
        r.pos == 0,
{
    if size > 0 {
        ByteBuf { data: Vec::with_capacity(size), pos: 0 }
    } else {
        ByteBuf { data: Vec::new(), pos: 0 }
    }
}

impl ByteBuf {
    /// A buffer over `data`, positioned at its first byte.
    pub fn from_vec(data: Vec<u8>) -> (r: Self)
        ensures
            r.data@ == data@,
            r.pos == 0,
    {
        ByteBuf { data, pos: 0 }
    }

    /// The data, without the position.
    pub fn into_inner(self) -> (r: Vec<u8>)
        ensures
            r@ == self.data@,
    {
        self.data
    }

    /// The data.
    pub fn get_ref(&self) -> (r: &Vec<u8>)
        ensures
            r@ == self.data@,
    {
        &self.data
    }

    /// The current position.
    pub fn position(&self) -> (r: usize)
        ensures
            r == self.pos,
    {
        self.pos
    }

    /// The number of bytes held.
    pub fn len(&self) -> (r: usize)
        ensures
            r == self.data@.len(),
    {
        self.data.len()
    }

    /// Moves the position. A position past the end is allowed; one before the
    /// first byte, or one that the machine cannot hold, is refused and the
    /// position stays.
    pub fn seek(&mut self, whence: SeekFrom) -> (r: Result<u64, Error>)
        ensures
            final(self).data@ == old(self).data@,
            0 <= seek_target(old(self).data@.len(), old(self).pos as nat, whence) <= usize::MAX
                ==> r == Ok::<u64, Error>(final(self).pos as u64) && final(self).pos
                == seek_target(old(self).data@.len(), old(self).pos as nat, whence),
            !(0 <= seek_target(old(self).data@.len(), old(self).pos as nat, whence) <= usize::MAX)
                ==> r == Err::<u64, Error>(Error::Io(IoFault::InvalidSeek)) && final(self).pos
                == old(self).pos,
    {
        let target: i128 = match whence {
            SeekFrom::Start(n) => n as i128,
            SeekFrom::End(n) => self.data.len() as i128 + n as i128,
            SeekFrom::Current(n) => self.pos as i128 + n as i128,
        };
        if target < 0 || target > usize::MAX as i128 {
            Err(Error::Io(IoFault::InvalidSeek))
        } else {
            self.pos = target as usize;
            Ok(target as u64)
        }
    }

    /// Reads at most `max` bytes at the position and moves past them. At or
    /// past the end nothing is read.
    pub fn read(&mut self, max: usize) -> (r: Vec<u8>)
        ensures
            final(self).data@ == old(self).data@,
            r@ == readable(old(self).data@, old(self).pos as nat, max as nat),
            final(self).pos == old(self).pos + r@.len(),
    {
        let len = self.data.len();
        if self.pos >= len {
            return Vec::new();
        }
        let end = if max >= len - self.pos {
            len
        } else {
            self.pos + max
        };
        let out = copy_range(self.data.as_slice(), self.pos, end);
        self.pos = end;
        out
    }

    /// Writes `buf` at the position and moves past it. Refused, with nothing
    /// changed, where the end of the write does not fit the machine.
    pub fn write(&mut self, buf: &[u8]) -> (r: Result<usize, Error>)
        ensures
            old(self).pos + buf@.len() <= usize::MAX ==> r == Ok::<usize, Error>(buf@.len() as usize)
                && final(self).data@ == written(old(self).data@, old(self).pos as nat, buf@)
                && final(self).pos == old(self).pos + buf@.len(),
            old(self).pos + buf@.len() > usize::MAX ==> r == Err::<usize, Error>(
                Error::Io(IoFault::Overflow),
            ) && *final(self) == *old(self),
    {
        if buf.len() > usize::MAX - self.pos {
            return Err(Error::Io(IoFault::Overflow));
        }
        let start = self.pos;
        let end = start + buf.len();
        let len = self.data.len();
        let ghost before = self.data@;
        if start > len {
            extend_zeros(&mut self.data, start - len);
        }
        let ghost padded = self.data@;
        let mut tail: Vec<u8> = Vec::new();
        if end < self.data.len() {
            tail = self.data.split_off(end);
        }
        self.data.truncate(start);
        extend_bytes(&mut self.data, buf);
        let mut tail_all = tail;
        self.data.append(&mut tail_all);
        self.pos = end;
        proof {
            if end >= padded.len() {
                assert(self.data@ =~= padded.subrange(0, start as int) + buf@);
            } else {
                assert(self.data@ =~= padded.subrange(0, start as int) + buf@ + padded.subrange(
                    end as int,
                    padded.len() as int,
                ));
            }
        }
        Ok(buf.len())
    }
}

} // verus!
