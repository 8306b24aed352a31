//! MD4 digest (RFC 1320) and the Quake block checksums built on it.
use vstd::prelude::*;
use crate::bytes::{le_u32, u32_at, u32_to_le, read_u32_at};

verus! {

/// The message word that each of the 48 steps adds.
pub const MD4_WORD: [u8; 48] = [
    0, 1, 2, 3, 4, 5, 6, 7, 8, 9, 10, 11, 12, 13, 14, 15,
    0, 4, 8, 12, 1, 5, 9, 13, 2, 6, 10, 14, 3, 7, 11, 15,
    0, 8, 4, 12, 2, 10, 6, 14, 1, 9, 5, 13, 3, 11, 7, 15,
];

/// The rotation of each of the 48 steps.
pub const MD4_SHIFT: [u8; 48] = [
    3, 7, 11, 19, 3, 7, 11, 19, 3, 7, 11, 19, 3, 7, 11, 19,
    3, 5, 9, 13, 3, 5, 9, 13, 3, 5, 9, 13, 3, 5, 9, 13,
    3, 9, 11, 15, 3, 9, 11, 15, 3, 9, 11, 15, 3, 9, 11, 15,
];

pub open spec fn md4_f(x: u32, y: u32, z: u32) -> u32 {
    (x & y) | (!x & z)
}

pub open spec fn md4_g(x: u32, y: u32, z: u32) -> u32 {
    (x & y) | (x & z) | (y & z)
}

pub open spec fn md4_h(x: u32, y: u32, z: u32) -> u32 {
    x ^ y ^ z
}

pub open spec fn rotl(x: u32, s: u32) -> u32 {
    (x << s) | (x >> (32u32 - s))
}

/// The round function and constant of step `k`, applied to `b`, `c`, `d`.
pub open spec fn md4_mix(k: int, b: u32, c: u32, d: u32) -> u32 {
    if k < 16 {
        md4_f(b, c, d)
    } else if k < 32 {
        md4_g(b, c, d).wrapping_add(0x5a827999u32)
    } else {
        md4_h(b, c, d).wrapping_add(0x6ed9eba1u32)
    }
}

/// Which of the four registers step `k` updates: a, d, c, b in turn.
pub open spec fn md4_target(k: int) -> int {
    (4 - k % 4) % 4
}

/// The registers after step `k` of a block whose words are `x`.
pub open spec fn md4_step(regs: Seq<u32>, x: Seq<u32>, k: int) -> Seq<u32> {
    let t = md4_target(k);
    let a = regs[t];
    let b = regs[(t + 1) % 4];
    let c = regs[(t + 2) % 4];
    let d = regs[(t + 3) % 4];
    let v = a.wrapping_add(md4_mix(k, b, c, d)).wrapping_add(x[MD4_WORD@[k] as int]);
    regs.update(t, rotl(v, MD4_SHIFT@[k] as u32))
}

/// The registers after steps `k` to 47.
pub open spec fn md4_steps_from(regs: Seq<u32>, x: Seq<u32>, k: int) -> Seq<u32>
    decreases 48 - k,
{
    if k >= 48 || k < 0 {
        regs
    } else {
        md4_steps_from(md4_step(regs, x, k), x, k + 1)
    }
}

/// The sixteen little-endian words of a 64-byte block.
pub open spec fn block_words(block: Seq<u8>) -> Seq<u32> {
    Seq::new(16, |i: int| u32_at(block, 4 * i))
}

/// The MD4 compression function: the chaining value after one block.
pub open spec fn md4_compress(state: Seq<u32>, block: Seq<u8>) -> Seq<u32> {
    let r = md4_steps_from(state, block_words(block), 0);
    seq![
        state[0].wrapping_add(r[0]),
        state[1].wrapping_add(r[1]),
        state[2].wrapping_add(r[2]),
        state[3].wrapping_add(r[3]),
    ]
}

/// The chaining value after every whole 64-byte block of `data`.
pub open spec fn md4_blocks(state: Seq<u32>, data: Seq<u8>) -> Seq<u32>
    decreases data.len(),
{
    if data.len() < 64 {
        state
    } else {
        md4_blocks(md4_compress(state, data.take(64)), data.skip(64))
    }
}

pub open spec fn md4_init() -> Seq<u32> {
    seq![0x67452301u32, 0xefcdab89u32, 0x98badcfeu32, 0x10325476u32]
}

/// The eight little-endian bytes of a 64-bit value.
pub open spec fn le_u64(v: u64) -> Seq<u8> {
    le_u32((v & 0xffff_ffff) as u32) + le_u32((v >> 32) as u32)
}

/// The padding appended to a message of `len` bytes: a one bit, zeros up
/// to 56 bytes past a block boundary, then the length in bits.
pub open spec fn md4_padding(len: nat) -> Seq<u8> {
    let r = len % 64;
    let zeros: nat = if r < 56 { (55 - r) as nat } else { (119 - r) as nat };
    seq![0x80u8] + Seq::new(zeros, |i: int| 0u8) + le_u64(((len * 8) % 0x1_0000_0000_0000_0000) as u64)
}

/// The sixteen bytes of a chaining value.
pub open spec fn state_bytes(s: Seq<u32>) -> Seq<u8> {
    le_u32(s[0]) + le_u32(s[1]) + le_u32(s[2]) + le_u32(s[3])
}

/// The MD4 digest of `data`.
pub open spec fn md4_digest(data: Seq<u8>) -> Seq<u8> {
    state_bytes(md4_blocks(md4_init(), data + md4_padding(data.len())))
}

/// Processing blocks is processing a whole-block prefix, then the rest.
pub proof fn lemma_blocks_append(s: Seq<u32>, a: Seq<u8>, b: Seq<u8>)
    requires
        a.len() % 64 == 0,
    ensures
        md4_blocks(s, a + b) == md4_blocks(md4_blocks(s, a), b),
    decreases a.len(),
{
    if a.len() == 0 {
        assert(a + b =~= b);
    } else {
        assert((a + b).take(64) =~= a.take(64));
        assert((a + b).skip(64) =~= a.skip(64) + b);
        lemma_blocks_append(md4_compress(s, a.take(64)), a.skip(64), b);
    }
}

/// One more whole block.
pub proof fn lemma_blocks_one_more(s: Seq<u32>, a: Seq<u8>, blk: Seq<u8>)
    requires
        a.len() % 64 == 0,
        blk.len() == 64,
    ensures
        md4_blocks(s, a + blk) == md4_compress(md4_blocks(s, a), blk),
{
    lemma_blocks_append(s, a, blk);
    let x = md4_blocks(s, a);
    assert(blk.take(64) =~= blk);
    assert(md4_blocks(x, blk) == md4_blocks(md4_compress(x, blk.take(64)), blk.skip(64)));
    assert(blk.skip(64).len() == 0);
    assert(md4_blocks(md4_compress(x, blk), blk.skip(64)) == md4_compress(x, blk));
}

/// A streaming MD4 computation: the chaining value after every whole block
/// seen so far, and the bytes of an unfinished block.
pub struct Md4 {
    state: [u32; 4],
    len_bits: u64,
    buffer: Vec<u8>,
    buffer_len: usize,
    absorbed: Ghost<Seq<u8>>,
}

impl Clone for Md4 {
    /// A computation at the same point, which goes on independently.
    fn clone(&self) -> (r: Self)
        ensures
            r.absorbed() == self.absorbed(),
            self.wf() ==> r.wf(),
    {
        let mut buffer: Vec<u8> = Vec::new();
        let mut i: usize = 0;
        while i < self.buffer.len()
            invariant
                i <= self.buffer@.len(),
                buffer@ == self.buffer@.take(i as int),
            decreases self.buffer@.len() - i,
        {
            buffer.push(self.buffer[i]);
            assert(buffer@ =~= self.buffer@.take(i + 1));
            i = i + 1;
        }
        assert(buffer@ =~= self.buffer@);
        Md4 {
            state: self.state,
            len_bits: self.len_bits,
            buffer,
            buffer_len: self.buffer_len,
            absorbed: Ghost(self.absorbed@),
        }
    }
}

fn f(x: u32, y: u32, z: u32) -> (r: u32)
    ensures
        r == md4_f(x, y, z),
{
    (x & y) | (!x & z)
}

fn g(x: u32, y: u32, z: u32) -> (r: u32)
    ensures
        r == md4_g(x, y, z),
{
    (x & y) | (x & z) | (y & z)
}

fn h(x: u32, y: u32, z: u32) -> (r: u32)
    ensures
        r == md4_h(x, y, z),
{
    x ^ y ^ z
}

/// Copies `n` bytes of `src` from `src_at` into `dst` at `dst_at`.
fn copy_bytes(dst: &mut Vec<u8>, dst_at: usize, src: &[u8], src_at: usize, n: usize)
    requires
        dst_at + n <= old(dst).len(),
        src_at + n <= src.len(),
    ensures
        final(dst)@.len() == old(dst)@.len(),
        forall|q: int| 0 <= q < final(dst)@.len() ==> #[trigger] final(dst)@[q] == if dst_at <= q < dst_at + n {
            src@[src_at + q - dst_at]
        } else {
            old(dst)@[q]
        },
{
    let mut j: usize = 0;
    while j < n
        invariant
            j <= n,
            dst_at + n <= dst.len(),
            src_at + n <= src.len(),
            dst@.len() == old(dst)@.len(),
            forall|q: int| 0 <= q < dst@.len() ==> #[trigger] dst@[q] == if dst_at <= q < dst_at + j {
                src@[src_at + q - dst_at]
            } else {
                old(dst)@[q]
            },
        decreases n - j,
    {
        dst.set(dst_at + j, src[src_at + j]);
        j = j + 1;
    }
}

/// Applies the compression function to `state` with one 64-byte block.
fn transform(state: &mut [u32; 4], block: &[u8])
    requires
        block@.len() == 64,
    ensures
        final(state)@ == md4_compress(old(state)@, block@),
{
    let mut x: Vec<u32> = Vec::new();
    let mut i: usize = 0;
    while i < 16
        invariant
            block@.len() == 64,
            i <= 16,
            x@.len() == i,
            forall|j: int| 0 <= j < i ==> x@[j] == u32_at(block@, 4 * j),
        decreases 16 - i,
    {
        x.push(read_u32_at(block, 4 * i));
        i = i + 1;
    }
    assert(x@ =~= block_words(block@));
    let ghost s0 = state@;
    let mut regs: [u32; 4] = *state;
    let mut k: usize = 0;
    while k < 48
        invariant
            k <= 48,
            regs@.len() == 4,
            x@ == block_words(block@),
            md4_steps_from(regs@, x@, k as int) == md4_steps_from(s0, x@, 0),
        decreases 48 - k,
    {
        let t: usize = (4 - k % 4) % 4;
        let a = regs[t];
        let b = regs[(t + 1) % 4];
        let c = regs[(t + 2) % 4];
        let d = regs[(t + 3) % 4];
        let mix = if k < 16 {
            f(b, c, d)
        } else if k < 32 {
            g(b, c, d).wrapping_add(0x5a827999u32)
        } else {
            h(b, c, d).wrapping_add(0x6ed9eba1u32)
        };
        let w = MD4_WORD[k] as usize;
        let s = MD4_SHIFT[k] as u32;
        assert(0 < s < 32) by {
            assert(MD4_SHIFT@[k as int] >= 3 && MD4_SHIFT@[k as int] <= 19);
        }
        assert(w < 16);
        let v = a.wrapping_add(mix).wrapping_add(x[w]);
        let rotated = (v << s) | (v >> (32u32 - s));
        let ghost before = regs@;
        regs[t] = rotated;
        assert(regs@ == md4_step(before, x@, k as int));
        k = k + 1;
    }
    let r0 = state[0].wrapping_add(regs[0]);
    let r1 = state[1].wrapping_add(regs[1]);
    let r2 = state[2].wrapping_add(regs[2]);
    let r3 = state[3].wrapping_add(regs[3]);
    *state = [r0, r1, r2, r3];
    assert(state@ =~= md4_compress(s0, block@));
}

impl Md4 {
    /// Every byte given so far.
    pub closed spec fn absorbed(&self) -> Seq<u8> {
        self.absorbed@
    }

    pub closed spec fn wf(&self) -> bool {
        let full = self.absorbed@.len() - self.buffer_len;
        &&& self.buffer@.len() == 64
        &&& self.buffer_len < 64
        &&& self.buffer_len <= self.absorbed@.len()
        &&& full % 64 == 0
        &&& self.state@ == md4_blocks(md4_init(), self.absorbed@.take(full))
        &&& self.buffer@.take(self.buffer_len as int) == self.absorbed@.skip(full)
        &&& self.len_bits == (self.absorbed@.len() * 8) % 0x1_0000_0000_0000_0000
    }

    pub fn new() -> (m: Self)
        ensures
            m.wf(),
            m.absorbed() == Seq::<u8>::empty(),
    {
        let m = Md4 {
            state: [0x67452301, 0xefcdab89, 0x98badcfe, 0x10325476],
            len_bits: 0,
            buffer: vec![0u8; 64],
            buffer_len: 0,
            absorbed: Ghost(Seq::empty()),
        };
        assert(m.state@ =~= md4_init());
        assert(m.buffer@.take(0) =~= m.absorbed@.skip(0));
        m
    }

    /// Adds `data` to the message.
    pub fn update(&mut self, data: &[u8])
        requires
            old(self).wf(),
            data@.len() < 0x2000_0000_0000_0000,
        ensures
            final(self).wf(),
            final(self).absorbed() == old(self).absorbed() + data@,
    {
        if data.len() == 0 {
            assert(self.absorbed@ + data@ =~= self.absorbed@);
            return;
        }
        let ghost total = old(self).absorbed@ + data@;
        let ghost full0 = old(self).absorbed@.len() - old(self).buffer_len;
        let ghost old_bits = old(self).len_bits as int;
        let ghost old_len = old(self).absorbed@.len() as int;
        let ghost dlen = data@.len() as int;
        self.len_bits = self.len_bits.wrapping_add((data.len() as u64) * 8);
        let ghost new_bits = self.len_bits as int;
        assert(new_bits == ((old_len + dlen) * 8) % 0x1_0000_0000_0000_0000) by (nonlinear_arith)
            requires
                new_bits == (old_bits + dlen * 8) % 0x1_0000_0000_0000_0000,
                old_bits == (old_len * 8) % 0x1_0000_0000_0000_0000,
        ;
        let mut offset: usize = 0;
        // `processed` is the count of bytes of `total` that the state covers.
        let ghost mut processed: int = full0;
        proof {
            assert(total.take(full0) =~= old(self).absorbed@.take(full0));
        }
        if self.buffer_len > 0 {
            let remaining = 64 - self.buffer_len;
            if data.len() >= remaining {
                copy_bytes(&mut self.buffer, self.buffer_len, data, 0, remaining);
                proof {
                    assert forall|q: int| 0 <= q < 64 implies self.buffer@[q] == total[full0 + q] by {
                        if q < self.buffer_len {
                            assert(old(self).buffer@.take(old(self).buffer_len as int)[q] == old(self).absorbed@.skip(full0)[q]);
                        }
                    }
                    assert(self.buffer@ =~= total.subrange(full0, full0 + 64));
                    assert(total.take(full0 + 64) =~= total.take(full0) + total.subrange(full0, full0 + 64));
                    lemma_blocks_one_more(md4_init(), total.take(full0), total.subrange(full0, full0 + 64));
                }
                transform(&mut self.state, self.buffer.as_slice());
                self.buffer_len = 0;
                offset = remaining;
                proof {
                    processed = full0 + 64;
                }
            } else {
                copy_bytes(&mut self.buffer, self.buffer_len, data, 0, data.len());
                self.buffer_len = self.buffer_len + data.len();
                self.absorbed = Ghost(total);
                proof {
                    assert forall|q: int| 0 <= q < self.buffer_len implies self.buffer@[q] == total.skip(full0)[q] by {
                        if q < old(self).buffer_len {
                            assert(old(self).buffer@.take(old(self).buffer_len as int)[q] == old(self).absorbed@.skip(full0)[q]);
                        }
                    }
                    assert(self.buffer@.take(self.buffer_len as int) =~= total.skip(full0));
                }
                return;
            }
        }
        // Here the buffer is empty and the state covers `total.take(processed)`.
        while data.len() - offset >= 64
            invariant
                self.buffer@.len() == 64,
                self.buffer_len == 0,
                offset <= data@.len(),
                processed == old(self).absorbed@.len() + offset,
                processed % 64 == 0,
                total == old(self).absorbed@ + data@,
                self.state@ == md4_blocks(md4_init(), total.take(processed)),
                self.len_bits as int == new_bits,
            decreases data@.len() - offset,
        {
            proof {
                assert(total.subrange(processed, processed + 64) =~= data@.subrange(offset as int, offset + 64));
                assert(total.take(processed + 64) =~= total.take(processed) + total.subrange(processed, processed + 64));
                lemma_blocks_one_more(md4_init(), total.take(processed), total.subrange(processed, processed + 64));
            }
            transform(&mut self.state, &data[offset..offset + 64]);
            offset = offset + 64;
            proof {
                processed = processed + 64;
            }
        }
        let remaining = data.len() - offset;
        copy_bytes(&mut self.buffer, 0, data, offset, remaining);
        self.buffer_len = remaining;
        self.absorbed = Ghost(total);
        proof {
            assert(self.buffer@.take(remaining as int) =~= total.skip(processed));
            assert(processed == total.len() - remaining);
        }
    }

    /// The digest of everything given.
    #[verifier::rlimit(40)]
    pub fn finalize(self) -> (out: [u8; 16])
        requires
            self.wf(),
            self.absorbed().len() < 0x2000_0000_0000_0000 - 128,
        ensures
            out@ == md4_digest(self.absorbed()),
    {
        let mut m = self;
        let bit_len = m.len_bits;
        let mut padding = vec![0u8; 64];
        padding.set(0, 0x80);
        let pad_len: usize = if m.buffer_len < 56 { 56 - m.buffer_len } else { 120 - m.buffer_len };
        let ghost msg = m.absorbed@;
        proof {
            assert(msg.len() % 64 == m.buffer_len);
        }
        m.update(&padding[0..pad_len]);
        let lo = u32_to_le((bit_len & 0xffff_ffff) as u32);
        let hi = u32_to_le((bit_len >> 32) as u32);
        let len_bytes = [lo[0], lo[1], lo[2], lo[3], hi[0], hi[1], hi[2], hi[3]];
        m.update(&len_bytes);
        proof {
            assert(padding@.subrange(0, pad_len as int) + len_bytes@ =~= md4_padding(msg.len()));
            assert(m.absorbed@ =~= msg + md4_padding(msg.len()));
            assert(m.absorbed@.len() % 64 == 0);
            assert(m.absorbed@.take(m.absorbed@.len() as int) =~= m.absorbed@);
        }
        let w0 = u32_to_le(m.state[0]);
        let w1 = u32_to_le(m.state[1]);
        let w2 = u32_to_le(m.state[2]);
        let w3 = u32_to_le(m.state[3]);
        let out = [
            w0[0], w0[1], w0[2], w0[3], w1[0], w1[1], w1[2], w1[3],
            w2[0], w2[1], w2[2], w2[3], w3[0], w3[1], w3[2], w3[3],
        ];
        assert(out@ =~= md4_digest(msg));
        out
    }
}

/// The MD4 digest of `data`.
pub fn digest(data: &[u8]) -> (out: [u8; 16])
    requires
        data@.len() < 0x2000_0000_0000_0000 - 128,
    ensures
        out@ == md4_digest(data@),
{
    let mut md4 = Md4::new();
    md4.update(data);
    assert(Seq::<u8>::empty() + data@ =~= data@);
    md4.finalize()
}

/// Quake's block checksum: the exclusive or of the four words of the digest.
pub open spec fn spec_block_checksum(data: Seq<u8>) -> u32 {
    let d = md4_digest(data);
    u32_at(d, 0) ^ u32_at(d, 4) ^ u32_at(d, 8) ^ u32_at(d, 12)
}

pub fn block_checksum(data: &[u8]) -> (r: u32)
    requires
        data@.len() < 0x2000_0000_0000_0000 - 128,
    ensures
        r == spec_block_checksum(data@),
{
    let hash = digest(data);
    let w0 = read_u32_at(&hash, 0);
    let w1 = read_u32_at(&hash, 4);
    let w2 = read_u32_at(&hash, 8);
    let w3 = read_u32_at(&hash, 12);
    w0 ^ w1 ^ w2 ^ w3
}

/// The whole digest, as Quake's full block checksum.
pub fn block_full_checksum(data: &[u8]) -> (out: [u8; 16])
    requires
        data@.len() < 0x2000_0000_0000_0000 - 128,
    ensures
        out@ == md4_digest(data@),
{
    digest(data)
}

/// Updates concatenate: of two clones of a hasher `start` (a clone has
/// absorbed what the hasher has), one fed `a` and then `b` (`middle`, then
/// `split`, as the contract of `update` describes it) holds the same bytes
/// as the other fed `a` and `b` in a single update (`joined`), so both
/// finalize (`finalize` gives `md4_digest` of what was absorbed) to the
/// same digest, which from a new hasher is the digest of the whole input.
pub proof fn law_md4_updates_concatenate(start: Md4, middle: Md4, split: Md4, joined: Md4, a: Seq<u8>, b: Seq<u8>)
    requires
        middle.absorbed() == start.absorbed() + a,
        split.absorbed() == middle.absorbed() + b,
        joined.absorbed() == start.absorbed() + (a + b),
    ensures
        split.absorbed() == joined.absorbed(),
        md4_digest(split.absorbed()) == md4_digest(joined.absorbed()),
        start.absorbed() == Seq::<u8>::empty() ==> md4_digest(split.absorbed()) == md4_digest(a + b),
{
    assert(start.absorbed() + a + b =~= start.absorbed() + (a + b));
    assert(Seq::<u8>::empty() + (a + b) =~= a + b);
}

} // verus!
