//! Streaming checksum engines: a wrapping byte sum and the IEEE CRC-32.

use vstd::prelude::*;

verus! {

/// Sum of all bytes of `bytes`, as a mathematical integer.
pub open spec fn byte_sum(bytes: Seq<u8>) -> nat
    decreases bytes.len(),
{
    if bytes.len() == 0 {
        0
    } else {
        byte_sum(bytes.drop_last()) + bytes.last() as nat
    }
}

/// The weak checksum register after `bytes` went through a register that held `acc`.
pub open spec fn weak_fold(acc: u32, bytes: Seq<u8>) -> u32 {
    ((acc as nat + byte_sum(bytes)) % 0x1_0000_0000) as u32
}

/// The weak checksum of a whole byte sequence: its byte sum modulo 2^32.
pub open spec fn weak_checksum(bytes: Seq<u8>) -> u32 {
    weak_fold(0, bytes)
}

/// Wrapping 32-bit addition, as used for aggregate checksums.
pub open spec fn wrapping_add32(a: u32, b: u32) -> u32 {
    ((a as nat + b as nat) % 0x1_0000_0000) as u32
}

/// The byte sum of a concatenation is the sum of the byte sums.
pub proof fn lemma_byte_sum_concat(a: Seq<u8>, b: Seq<u8>)
    ensures
        byte_sum(a + b) == byte_sum(a) + byte_sum(b),
    decreases b.len(),
{
    if b.len() == 0 {
        assert(a + b =~= a);
    } else {
        assert((a + b).drop_last() =~= a + b.drop_last());
        assert((a + b).last() == b.last());
        lemma_byte_sum_concat(a, b.drop_last());
    }
}

/// The byte sum of a single byte is that byte.
pub proof fn lemma_byte_sum_single(b: u8)
    ensures
        byte_sum(seq![b]) == b as nat,
{
    assert(seq![b].drop_last() =~= Seq::<u8>::empty());
    assert(byte_sum(seq![b].drop_last()) == 0);
    assert(seq![b].last() == b);
}

/// Feeding `a` and then `b` leaves the register that feeding `a + b` at once leaves.
pub proof fn lemma_weak_fold_concat(acc: u32, a: Seq<u8>, b: Seq<u8>)
    ensures
        weak_fold(weak_fold(acc, a), b) == weak_fold(acc, a + b),
{
    lemma_byte_sum_concat(a, b);
    let x = acc as nat + byte_sum(a);
    let y = byte_sum(b);
    assert(((x % 0x1_0000_0000) + y) % 0x1_0000_0000 == (x + y) % 0x1_0000_0000) by {
        vstd::arithmetic::div_mod::lemma_add_mod_noop(x as int, y as int, 0x1_0000_0000);
        vstd::arithmetic::div_mod::lemma_add_mod_noop((x % 0x1_0000_0000) as int, y as int, 0x1_0000_0000);
        vstd::arithmetic::div_mod::lemma_mod_twice(x as int, 0x1_0000_0000);
    }
}

/// The weak checksum of a concatenation is the wrapping sum of the parts' checksums.
pub proof fn lemma_weak_checksum_concat(a: Seq<u8>, b: Seq<u8>)
    ensures
        weak_checksum(a + b) == wrapping_add32(weak_checksum(a), weak_checksum(b)),
{
    lemma_byte_sum_concat(a, b);
    let x = byte_sum(a);
    let y = byte_sum(b);
    vstd::arithmetic::div_mod::lemma_add_mod_noop(x as int, y as int, 0x1_0000_0000);
}

/// All chunks of `chunks` laid end to end.
pub open spec fn concat_chunks(chunks: Seq<Seq<u8>>) -> Seq<u8>
    decreases chunks.len(),
{
    if chunks.len() == 0 {
        Seq::empty()
    } else {
        concat_chunks(chunks.drop_last()) + chunks.last()
    }
}

/// The register after each chunk of `chunks` was pushed in turn into a register holding `acc`.
pub open spec fn weak_fold_chunks(acc: u32, chunks: Seq<Seq<u8>>) -> u32
    decreases chunks.len(),
{
    if chunks.len() == 0 {
        acc
    } else {
        weak_fold(weak_fold_chunks(acc, chunks.drop_last()), chunks.last())
    }
}

/// The weak checksum does not depend on where the input is cut into chunks:
/// pushing any partitioning of a byte sequence gives the byte sum of the whole
/// sequence modulo 2^32.
pub proof fn lemma_weak_checksum_chunk_independent(chunks: Seq<Seq<u8>>)
    ensures
        weak_fold_chunks(0, chunks) == weak_checksum(concat_chunks(chunks)),
        weak_fold_chunks(0, chunks) as nat == byte_sum(concat_chunks(chunks)) % 0x1_0000_0000,
    decreases chunks.len(),
{
    if chunks.len() == 0 {
        assert(byte_sum(Seq::<u8>::empty()) == 0);
    } else {
        lemma_weak_checksum_chunk_independent(chunks.drop_last());
        lemma_weak_fold_concat(0, concat_chunks(chunks.drop_last()), chunks.last());
    }
}

/// Streaming weak checksum: the sum of all pushed bytes, modulo 2^32.
#[derive(Debug, Clone, Copy)]
pub struct WeakChecksum {
    pub state: u32,
}

impl WeakChecksum {
    /// A fresh engine, with nothing pushed.
    pub fn new() -> (r: Self)
        ensures
            r.state == 0,
    {
        WeakChecksum { state: 0 }
    }

    /// Feeds `buffer` to the engine.
    pub fn push(&mut self, buffer: &[u8])
        ensures
            final(self).state == weak_fold(old(self).state, buffer@),
    {
        let mut i: usize = 0;
        let ghost start = self.state;
        assert(buffer@.subrange(0, 0) =~= Seq::<u8>::empty());
        assert(byte_sum(Seq::<u8>::empty()) == 0);
        while i < buffer.len()
            invariant
                i <= buffer.len(),
                self.state == weak_fold(start, buffer@.subrange(0, i as int)),
            decreases buffer.len() - i,
        {
            let b = buffer[i];
            proof {
                let prefix = buffer@.subrange(0, i as int);
                let next = buffer@.subrange(0, i as int + 1);
                assert(next.drop_last() =~= prefix);
                assert(next.last() == b);
                assert(next =~= prefix + seq![b]);
                lemma_byte_sum_single(b);
                lemma_weak_fold_concat(start, prefix, seq![b]);
            }
            self.state = self.state.wrapping_add(b as u32);
            i += 1;
        }
        assert(buffer@.subrange(0, i as int) =~= buffer@);
    }

    /// The checksum of everything pushed so far.
    pub fn finish(&self) -> (r: u32)
        ensures
            r == self.state,
    {
        self.state
    }
}

/// The generator polynomial of the IEEE CRC-32, in reflected form.
pub const CRC32_POLYNOMIAL: u32 = 0xEDB8_8320;

/// One shift of the reflected CRC register.
pub open spec fn crc32_shift(reg: u32) -> u32 {
    if reg & 1 == 1 {
        (reg >> 1) ^ CRC32_POLYNOMIAL
    } else {
        reg >> 1
    }
}

/// Four shifts of the reflected CRC register.
pub open spec fn crc32_shift4(reg: u32) -> u32 {
    crc32_shift(crc32_shift(crc32_shift(crc32_shift(reg))))
}

/// The CRC register after one byte went through a register that held `reg`.
pub open spec fn crc32_byte(reg: u32, b: u8) -> u32 {
    crc32_shift4(crc32_shift4(reg ^ (b as u32)))
}

/// The CRC register after `bytes` went through a register that held `reg`.
pub open spec fn crc32_fold(reg: u32, bytes: Seq<u8>) -> u32
    decreases bytes.len(),
{
    if bytes.len() == 0 {
        reg
    } else {
        crc32_byte(crc32_fold(reg, bytes.drop_last()), bytes.last())
    }
}

/// The IEEE CRC-32 of a byte sequence: register preset to all ones, output inverted.
pub open spec fn crc32_checksum(bytes: Seq<u8>) -> u32 {
    crc32_fold(0xFFFF_FFFF, bytes) ^ 0xFFFF_FFFF
}

/// Feeding `a` and then `b` leaves the register that feeding `a + b` at once leaves.
pub proof fn lemma_crc32_fold_concat(reg: u32, a: Seq<u8>, b: Seq<u8>)
    ensures
        crc32_fold(crc32_fold(reg, a), b) == crc32_fold(reg, a + b),
    decreases b.len(),
{
    if b.len() == 0 {
        assert(a + b =~= a);
    } else {
        assert((a + b).drop_last() =~= a + b.drop_last());
        assert((a + b).last() == b.last());
        lemma_crc32_fold_concat(reg, a, b.drop_last());
    }
}

fn crc32_shift_exec(reg: u32) -> (r: u32)
    ensures
        r == crc32_shift(reg),
{
    if reg & 1 == 1 {
        (reg >> 1) ^ CRC32_POLYNOMIAL
    } else {
        reg >> 1
    }
}

fn crc32_byte_exec(reg: u32, b: u8) -> (r: u32)
    ensures
        r == crc32_byte(reg, b),
{
    let mut cur: u32 = reg ^ (b as u32);
    cur = crc32_shift_exec(cur);
    cur = crc32_shift_exec(cur);
    cur = crc32_shift_exec(cur);
    cur = crc32_shift_exec(cur);
    cur = crc32_shift_exec(cur);
    cur = crc32_shift_exec(cur);
    cur = crc32_shift_exec(cur);
    crc32_shift_exec(cur)
}

/// Streaming IEEE CRC-32.
#[derive(Debug, Clone, Copy)]
pub struct Crc32Checksum {
    pub state: u32,
}

impl Crc32Checksum {
    /// A fresh engine, with nothing pushed.
    pub fn new() -> (r: Self)
        ensures
            r.state == 0xFFFF_FFFFu32,
    {
        Crc32Checksum { state: 0xFFFF_FFFF }
    }

    /// Feeds `buffer` to the engine.
    pub fn push(&mut self, buffer: &[u8])
        ensures
            final(self).state == crc32_fold(old(self).state, buffer@),
    {
        let mut i: usize = 0;
        let ghost start = self.state;
        assert(buffer@.subrange(0, 0) =~= Seq::<u8>::empty());
        while i < buffer.len()
            invariant
                i <= buffer.len(),
                self.state == crc32_fold(start, buffer@.subrange(0, i as int)),
            decreases buffer.len() - i,
        {
            let b = buffer[i];
            proof {
                let next = buffer@.subrange(0, i as int + 1);
                assert(next.drop_last() =~= buffer@.subrange(0, i as int));
                assert(next.last() == b);
            }
            self.state = crc32_byte_exec(self.state, b);
            i += 1;
        }
        assert(buffer@.subrange(0, i as int) =~= buffer@);
    }

    /// The checksum of everything pushed so far.
    pub fn finish(&self) -> (r: u32)
        ensures
            r == self.state ^ 0xFFFF_FFFF,
    {
        self.state ^ 0xFFFF_FFFF
    }
}

/// Pushing no bytes leaves the register as it is.
pub proof fn lemma_fold_nothing(crc: bool, reg: u32)
    ensures
        ChecksumEngine::fold(crc, reg, Seq::<u8>::empty()) == reg,
{
    assert(byte_sum(Seq::<u8>::empty()) == 0);
}

/// The checksum of `bytes` under the chosen algorithm.
pub open spec fn payload_checksum(crc: bool, bytes: Seq<u8>) -> u32 {
    if crc {
        crc32_checksum(bytes)
    } else {
        weak_checksum(bytes)
    }
}

/// One of the two checksum engines, chosen when a section is read or written.
#[derive(Debug, Clone, Copy)]
pub enum ChecksumEngine {
    Weak(WeakChecksum),
    Crc32(Crc32Checksum),
}

impl ChecksumEngine {
    /// True for the CRC-32 engine.
    pub open spec fn is_crc(&self) -> bool {
        self is Crc32
    }

    /// The internal register.
    pub open spec fn register(&self) -> u32 {
        match self {
            ChecksumEngine::Weak(w) => w.state,
            ChecksumEngine::Crc32(c) => c.state,
        }
    }

    /// The register that a fresh engine holds.
    pub open spec fn initial_register(crc: bool) -> u32 {
        if crc {
            0xFFFF_FFFF
        } else {
            0
        }
    }

    /// The register after `bytes` went through a register that held `reg`.
    pub open spec fn fold(crc: bool, reg: u32, bytes: Seq<u8>) -> u32 {
        if crc {
            crc32_fold(reg, bytes)
        } else {
            weak_fold(reg, bytes)
        }
    }

    /// What `finish` returns for a register.
    pub open spec fn output(crc: bool, reg: u32) -> u32 {
        if crc {
            reg ^ 0xFFFF_FFFF
        } else {
            reg
        }
    }

    /// A fresh engine of the chosen algorithm.
    pub fn new(crc: bool) -> (r: Self)
        ensures
            r.is_crc() == crc,
            r.register() == Self::initial_register(crc),
    {
        if crc {
            ChecksumEngine::Crc32(Crc32Checksum::new())
        } else {
            ChecksumEngine::Weak(WeakChecksum::new())
        }
    }

    /// Feeds `buffer` to the engine.
    pub fn push(&mut self, buffer: &[u8])
        ensures
            final(self).is_crc() == old(self).is_crc(),
            final(self).register() == Self::fold(old(self).is_crc(), old(self).register(), buffer@),
    {
        match self {
            ChecksumEngine::Weak(w) => w.push(buffer),
            ChecksumEngine::Crc32(c) => c.push(buffer),
        }
    }

    /// The checksum of everything pushed so far.
    pub fn finish(&self) -> (r: u32)
        ensures
            r == Self::output(self.is_crc(), self.register()),
    {
        match self {
            ChecksumEngine::Weak(w) => w.finish(),
            ChecksumEngine::Crc32(c) => c.finish(),
        }
    }

    /// Pushing chunk after chunk is pushing their concatenation.
    pub proof fn lemma_fold_concat(crc: bool, reg: u32, a: Seq<u8>, b: Seq<u8>)
        ensures
            Self::fold(crc, Self::fold(crc, reg, a), b) == Self::fold(crc, reg, a + b),
    {
        if crc {
            lemma_crc32_fold_concat(reg, a, b);
        } else {
            lemma_weak_fold_concat(reg, a, b);
        }
    }

    /// A fresh engine that was fed `bytes` finishes with the checksum of `bytes`.
    pub proof fn lemma_output_is_checksum(crc: bool, bytes: Seq<u8>)
        ensures
            Self::output(crc, Self::fold(crc, Self::initial_register(crc), bytes))
                == payload_checksum(crc, bytes),
    {
    }
}

} // verus!
