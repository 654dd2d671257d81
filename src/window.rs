//! A windowed cache of fixed-size blocks over a reference stream that can be
//! read only once, front to back.  The cache never performs I/O itself: the
//! caller reads and hands the bytes over, and the cache says when a further
//! read is needed and where each requested block lies in its buffer.
use vstd::prelude::*;
use vstd::arithmetic::div_mod::{
    lemma_fundamental_div_mod,
    lemma_fundamental_div_mod_converse_div,
    lemma_fundamental_div_mod_converse_mod,
};

verus! {

/// Number of blocks the window holds by default.
pub const DEFAULT_BLOCK_COUNT: usize = 64;

/// Default byte budget of the source window.
pub const DEFAULT_SRC_WINSIZE: usize = 67108864;

/// Default size of one input window handed to the codec.
pub const DEFAULT_WINSIZE: usize = 8388608;

/// Length of block `blkno` of a stream of which `read_len` bytes are known:
/// `blksize` bytes, fewer for the final block, none past the end.
pub open spec fn block_len(read_len: int, blksize: int, blkno: int) -> int {
    if blkno * blksize >= read_len {
        0
    } else if read_len - blkno * blksize < blksize {
        read_len - blkno * blksize
    } else {
        blksize
    }
}

/// Index of the last block of a stream of `read_len` bytes (0 when it is empty).
pub open spec fn last_blkno(read_len: int, blksize: int) -> int {
    if read_len == 0 {
        0
    } else {
        (read_len - 1) / blksize
    }
}

/// What the codec is told about one served block.
pub struct BlockInfo {
    /// The block's number.
    pub curblkno: usize,
    /// Where the block's bytes start in `SrcBuffer::buffer`.
    pub offset: usize,
    /// How many bytes the block has.
    pub onblk: usize,
    /// Whether the end of the reference stream has been seen.
    pub eof_known: bool,
    /// The last block's number once the end is known, else `curblkno`.
    pub max_blkno: usize,
    /// The last block's length once the end is known, else `onblk`.
    pub onlastblk: usize,
}

/// A sliding window of `block_count` blocks of `blksize` bytes over the
/// reference stream, held in one circular buffer: byte `p` of the stream
/// lives at `p % (block_count * blksize)` while it is in the window.
pub struct SrcBuffer {
    blksize: usize,
    block_count: usize,
    read_len: usize,
    eof_known: bool,
    block_offset: usize,
    buf: Vec<u8>,
    consumed: Ghost<Seq<u8>>,
}

proof fn lemma_slot(b: int, c: int, bs: int, j: int)
    requires
        0 <= b,
        0 < c,
        0 <= j < bs,
    ensures
        (b % c) * bs + j == (b * bs + j) % (c * bs),
        0 <= (b % c) * bs,
        (b % c) * bs + bs <= c * bs,
{
    lemma_fundamental_div_mod(b, c);
    let q = b / c;
    let r = b % c;
    assert(b * bs + j == q * (c * bs) + (r * bs + j)) by (nonlinear_arith)
        requires
            b == c * q + r,
    ;
    assert(0 <= r * bs + j < c * bs && r * bs + bs <= c * bs) by (nonlinear_arith)
        requires
            0 <= r < c,
            0 <= j < bs,
    ;
    lemma_fundamental_div_mod_converse_mod(b * bs + j, c * bs, q, r * bs + j);
}

proof fn lemma_mod_distinct(p1: int, p2: int, w: int)
    requires
        0 <= p1 < p2 < p1 + w,
    ensures
        p1 % w != p2 % w,
{
    lemma_fundamental_div_mod(p1, w);
    lemma_fundamental_div_mod(p2, w);
    if p1 % w == p2 % w {
        let d = p2 / w - p1 / w;
        assert(p2 - p1 == d * w) by (nonlinear_arith)
            requires
                p1 == w * (p1 / w) + p1 % w,
                p2 == w * (p2 / w) + p2 % w,
                p1 % w == p2 % w,
                d == p2 / w - p1 / w,
        ;
        assert(false) by (nonlinear_arith)
            requires
                0 < d * w < w,
                w > 0,
        ;
    }
}

/// Copies `data` into `buf` from index `start` on.
fn copy_into(buf: &mut Vec<u8>, start: usize, data: &[u8])
    requires
        start + data@.len() <= old(buf)@.len(),
        start + data@.len() <= usize::MAX,
    ensures
        final(buf)@.len() == old(buf)@.len(),
        forall|k: int| 0 <= k < data@.len() ==> #[trigger] final(buf)@[start + k] == data@[k],
        forall|i: int|
            0 <= i < old(buf)@.len() && !(start <= i < start + data@.len()) ==> #[trigger] final(buf)@[i]
                == old(buf)@[i],
{
    let n = data.len();
    let mut j: usize = 0;
    while j < n
        invariant
            0 <= j <= n,
            n == data@.len(),
            start + n <= old(buf)@.len(),
            start + n <= usize::MAX,
            buf@.len() == old(buf)@.len(),
            forall|k: int| 0 <= k < j ==> #[trigger] buf@[start + k] == data@[k],
            forall|i: int|
                0 <= i < old(buf)@.len() && !(start <= i < start + j) ==> #[trigger] buf@[i]
                    == old(buf)@[i],
        decreases n - j,
    {
        buf[start + j] = data[j];
        j += 1;
    }
}

/// Two different blocks of the window are served from byte ranges of the
/// buffer that do not overlap.
pub proof fn lemma_window_slots_disjoint(w: &SrcBuffer, b1: int, b2: int)
    requires
        w.wf(),
        w.block_offset_spec() <= b1 < b2 < w.window_end(),
    ensures
        (b1 % w.block_count_spec()) * w.blksize_spec() + w.blksize_spec() <= (b2
            % w.block_count_spec()) * w.blksize_spec() || (b2 % w.block_count_spec())
            * w.blksize_spec() + w.blksize_spec() <= (b1 % w.block_count_spec())
            * w.blksize_spec(),
{
    let c = w.block_count_spec();
    let bs = w.blksize_spec();
    lemma_mod_distinct(b1, b2, c);
    lemma_fundamental_div_mod(b1, c);
    lemma_fundamental_div_mod(b2, c);
    let r1 = b1 % c;
    let r2 = b2 % c;
    if r1 < r2 {
        assert(r1 * bs + bs <= r2 * bs) by (nonlinear_arith)
            requires
                r1 + 1 <= r2,
                bs >= 0,
        ;
    } else {
        assert(r2 * bs + bs <= r1 * bs) by (nonlinear_arith)
            requires
                r2 + 1 <= r1,
                bs >= 0,
        ;
    }
}

/// Once the end is known and the reference length is not a multiple of the
/// block size, the last block is shorter than a block, and its length is
/// that remainder.
pub proof fn lemma_partial_last_block(w: &SrcBuffer)
    requires
        w.wf(),
        w.eof_known_spec(),
        (w.consumed().len() as int) % w.blksize_spec() != 0,
    ensures
        ({
            let len = w.consumed().len() as int;
            let bs = w.blksize_spec();
            &&& block_len(len, bs, last_blkno(len, bs)) == len % bs
            &&& block_len(len, bs, last_blkno(len, bs)) < bs
            &&& last_blkno(len, bs) == len / bs
        }),
{
    let len = w.consumed().len() as int;
    let bs = w.blksize_spec();
    lemma_fundamental_div_mod(len, bs);
    let q = len / bs;
    let r = len % bs;
    assert(len - 1 == q * bs + (r - 1)) by (nonlinear_arith)
        requires
            len == bs * q + r,
    ;
    lemma_fundamental_div_mod_converse_div(len - 1, bs, q, r - 1);
    assert(q * bs == len - r);
}

impl SrcBuffer {
    pub closed spec fn blksize_spec(&self) -> int {
        self.blksize as int
    }

    pub closed spec fn block_count_spec(&self) -> int {
        self.block_count as int
    }

    /// Index of the oldest block still in the window.
    pub closed spec fn block_offset_spec(&self) -> int {
        self.block_offset as int
    }

    pub closed spec fn eof_known_spec(&self) -> bool {
        self.eof_known
    }

    /// Every byte read from the reference stream so far, in order.
    pub closed spec fn consumed(&self) -> Seq<u8> {
        self.consumed@
    }

    pub closed spec fn buffer_spec(&self) -> Seq<u8> {
        self.buf@
    }

    /// One past the last block of the window.
    pub open spec fn window_end(&self) -> int {
        self.block_offset_spec() + self.block_count_spec()
    }

    pub closed spec fn wf(&self) -> bool {
        &&& 0 < self.block_count
        &&& 0 < self.blksize
        &&& self.buf@.len() == self.block_count * self.blksize
        &&& self.read_len == self.consumed@.len()
        &&& (self.block_offset + self.block_count) * self.blksize <= usize::MAX
        &&& self.block_offset * self.blksize <= self.read_len
        &&& self.read_len <= (self.block_offset + self.block_count) * self.blksize
        &&& !self.eof_known ==> self.read_len == (self.block_offset + self.block_count)
            * self.blksize
        &&& forall|p: int|
            self.block_offset * self.blksize <= p < self.read_len ==> #[trigger] self.buf@[p
                % (self.block_count * self.blksize)] == self.consumed@[p]
    }

    /// Starts the window from the bytes of the first read, which asked for
    /// `block_count * blksize` bytes and got `first`.  A short first read
    /// means the end of the stream is known already.
    pub fn new(block_count: usize, blksize: usize, first: Vec<u8>) -> (r: SrcBuffer)
        requires
            0 < block_count,
            0 < blksize,
            block_count * blksize <= usize::MAX,
            first@.len() <= block_count * blksize,
        ensures
            r.wf(),
            r.consumed() == first@,
            r.eof_known_spec() == (first@.len() < block_count * blksize),
            r.block_offset_spec() == 0,
            r.blksize_spec() == blksize,
            r.block_count_spec() == block_count,
    {
        let read_len = first.len();
        let w = block_count * blksize;
        let ghost first_seq = first@;
        let mut buf = first;
        buf.resize(w, 0u8);
        proof {
            assert forall|p: int| 0 <= p < read_len implies #[trigger] buf@[p % (w as int)]
                == first_seq[p] by {
                lemma_fundamental_div_mod_converse_mod(p, w as int, 0, p);
                assert(buf@.subrange(0, read_len as int)[p] == buf@[p]);
            }
        }
        SrcBuffer {
            blksize,
            block_count,
            read_len,
            eof_known: read_len < w,
            block_offset: 0,
            buf,
            consumed: Ghost(first_seq),
        }
    }

    /// Whether block `idx` lies past the window while more of the stream
    /// may still come, so that one more block must be fetched first.
    pub fn needs_fetch(&self, idx: usize) -> (r: bool)
        requires
            self.wf(),
        ensures
            r == (!self.eof_known_spec() && idx >= self.window_end()),
    {
        proof {
            let e = self.block_offset + self.block_count;
            assert(e <= e * self.blksize) by (nonlinear_arith)
                requires
                    self.blksize >= 1,
                    e >= 0,
            ;
        }
        !self.eof_known && idx >= self.block_offset + self.block_count
    }

    /// Whether the byte count can take one more block.
    pub fn can_fetch(&self) -> (r: bool)
        requires
            self.wf(),
        ensures
            r == (self.consumed().len() + self.blksize_spec() <= usize::MAX),
    {
        self.read_len <= usize::MAX - self.blksize
    }

    /// Takes the result of reading the next block: `data` is what a read
    /// asking for `blksize` bytes returned.  The bytes replace the oldest
    /// block, the window moves on by one block, and a short read marks the
    /// end of the stream.  Returns whether the end was reached.
    pub fn fetch(&mut self, data: &[u8]) -> (eof: bool)
        requires
            old(self).wf(),
            !old(self).eof_known_spec(),
            data@.len() <= old(self).blksize_spec(),
            old(self).consumed().len() + old(self).blksize_spec() <= usize::MAX,
        ensures
            final(self).wf(),
            final(self).consumed() == old(self).consumed() + data@,
            final(self).block_offset_spec() == old(self).block_offset_spec() + 1,
            eof == (data@.len() < old(self).blksize_spec()),
            final(self).eof_known_spec() == eof,
            final(self).blksize_spec() == old(self).blksize_spec(),
            final(self).block_count_spec() == old(self).block_count_spec(),
    {
        let ghost old_buf = self.buf@;
        let ghost old_consumed = self.consumed@;
        let ghost bo = self.block_offset as int;
        let ghost c = self.block_count as int;
        let ghost bs = self.blksize as int;
        let ghost w = c * bs;
        proof {
            lemma_slot(bo, c, bs, 0);
            assert(c * bs <= (bo + c) * bs && bo + 1 <= (bo + c) * bs) by (nonlinear_arith)
                requires
                    bo >= 0,
                    c >= 1,
                    bs >= 1,
            ;
        }
        let start = (self.block_offset % self.block_count) * self.blksize;
        copy_into(&mut self.buf, start, data);
        let n = data.len();
        self.block_offset = self.block_offset + 1;
        self.read_len = self.read_len + n;
        self.eof_known = n < self.blksize;
        proof {
            self.consumed@ = old_consumed + data@;
            let rl = old_consumed.len() as int;
            assert(rl == bo * bs + w) by (nonlinear_arith)
                requires
                    rl == (bo + c) * bs,
                    w == c * bs,
            ;
            assert((bo + 1 + c) * bs == rl + bs && (bo + 1) * bs == bo * bs + bs) by (
            nonlinear_arith)
                requires
                    rl == (bo + c) * bs,
            ;
            lemma_fundamental_div_mod(bo, c);
            assert(bo + c == (bo / c + 1) * c + bo % c) by (nonlinear_arith)
                requires
                    bo == c * (bo / c) + bo % c,
            ;
            lemma_fundamental_div_mod_converse_mod(bo + c, c, bo / c + 1, bo % c);
            assert forall|p: int|
                (bo + 1) * bs <= p < self.read_len implies #[trigger] self.buf@[p % w]
                == self.consumed@[p] by {
                if p < rl {
                    lemma_fundamental_div_mod(p, w);
                    if start <= p % w < start + n {
                        let k = p % w - start;
                        lemma_slot(bo, c, bs, k);
                        lemma_mod_distinct(bo * bs + k, p, w);
                    }
                    assert(self.buf@[p % w] == old_buf[p % w]);
                } else {
                    let k = p - rl;
                    lemma_slot(bo + c, c, bs, k);
                    assert(p == (bo + c) * bs + k);
                    assert(self.buf@[start + k] == data@[k]);
                }
            }
        }
        self.eof_known
    }

    /// Where block `blkno` lies and what the codec is told with it.  None
    /// when the block has already left the window, or lies past it while
    /// the end of the stream is not yet known (`needs_fetch` holds).
    pub fn getblk(&self, blkno: usize) -> (r: Option<BlockInfo>)
        requires
            self.wf(),
        ensures
            r.is_none() == (blkno < self.block_offset_spec() || (!self.eof_known_spec() && blkno
                >= self.window_end())),
            r matches Some(info) ==> {
                let len = self.consumed().len() as int;
                let bs = self.blksize_spec();
                &&& info.curblkno == blkno
                &&& info.onblk == block_len(len, bs, blkno as int)
                &&& blkno < self.window_end() ==> info.offset == (blkno as int
                    % self.block_count_spec()) * bs
                &&& info.offset + info.onblk <= self.buffer_spec().len()
                &&& 0 < info.onblk ==> self.buffer_spec().subrange(
                    info.offset as int,
                    info.offset + info.onblk,
                ) == self.consumed().subrange(blkno * bs, blkno * bs + info.onblk)
                &&& info.eof_known == self.eof_known_spec()
                &&& self.eof_known_spec() ==> info.max_blkno == last_blkno(len, bs)
                    && info.onlastblk == block_len(len, bs, last_blkno(len, bs))
                &&& !self.eof_known_spec() ==> info.max_blkno == blkno && info.onlastblk
                    == info.onblk
            },
    {
        let ghost c = self.block_count as int;
        let ghost bs = self.blksize as int;
        let ghost w = c * bs;
        let ghost rl = self.read_len as int;
        if blkno < self.block_offset {
            return None;
        }
        proof {
            let e = self.block_offset + self.block_count;
            assert(e <= e * self.blksize) by (nonlinear_arith)
                requires
                    self.blksize >= 1,
                    e >= 0,
            ;
        }
        let end = self.block_offset + self.block_count;
        let onblk: usize;
        let offset: usize;
        if blkno >= end {
            if !self.eof_known {
                return None;
            }
            proof {
                assert(blkno * bs >= end * bs) by (nonlinear_arith)
                    requires
                        blkno >= end,
                        bs >= 0,
                ;
            }
            onblk = 0;
            offset = 0;
        } else {
            proof {
                assert(blkno * bs < end * bs && blkno * bs >= self.block_offset * bs) by (
                nonlinear_arith)
                    requires
                        blkno < end,
                        blkno >= self.block_offset,
                        bs >= 1,
                ;
                lemma_slot(blkno as int, c, bs, 0);
                assert(c * bs <= (self.block_offset + c) * bs) by (nonlinear_arith)
                    requires
                        bs >= 1,
                        self.block_offset >= 0,
                ;
            }
            let start_abs = blkno * self.blksize;
            if start_abs >= self.read_len {
                onblk = 0;
            } else if self.read_len - start_abs < self.blksize {
                onblk = self.read_len - start_abs;
            } else {
                onblk = self.blksize;
            }
            offset = (blkno % self.block_count) * self.blksize;
            proof {
                assert forall|k: int| 0 <= k < onblk implies #[trigger] self.buf@[offset + k]
                    == self.consumed@[blkno * bs + k] by {
                    lemma_slot(blkno as int, c, bs, k);
                    let p = blkno * bs + k;
                    assert(self.block_offset * bs <= p < rl);
                    assert(self.buf@[p % w] == self.consumed@[p]);
                }
                assert(offset + onblk <= w);
                if 0 < onblk {
                    assert(start_abs == blkno * bs);
                    assert(blkno * bs + onblk <= rl);
                    assert forall|k: int| 0 <= k < onblk implies #[trigger] self.buf@.subrange(
                        offset as int,
                        offset + onblk,
                    )[k] == self.consumed@.subrange(blkno * bs, blkno * bs + onblk)[k] by {
                        assert(self.buf@[offset + k] == self.consumed@[blkno * bs + k]);
                    }
                    assert(self.buf@.subrange(offset as int, offset + onblk) =~= self.consumed@.subrange(
                    blkno * bs,
                    blkno * bs + onblk,
                ));
                }
            }
        }
        let max_blkno: usize;
        let onlastblk: usize;
        if !self.eof_known {
            max_blkno = blkno;
            onlastblk = onblk;
        } else if self.read_len == 0 {
            max_blkno = 0;
            onlastblk = 0;
        } else {
            max_blkno = (self.read_len - 1) / self.blksize;
            proof {
                lemma_fundamental_div_mod(rl - 1, bs);
                assert(max_blkno * bs <= rl - 1 && rl - max_blkno * bs <= bs) by (nonlinear_arith)
                    requires
                        rl - 1 == bs * max_blkno + (rl - 1) % bs,
                        0 <= (rl - 1) % bs < bs,
                ;
            }
            onlastblk = self.read_len - max_blkno * self.blksize;
        }
        Some(BlockInfo { curblkno: blkno, offset, onblk, eof_known: self.eof_known, max_blkno, onlastblk })
    }

    pub fn blksize(&self) -> (r: usize)
        ensures
            r == self.blksize_spec(),
    {
        self.blksize
    }

    pub fn block_count(&self) -> (r: usize)
        ensures
            r == self.block_count_spec(),
    {
        self.block_count
    }

    pub fn block_offset(&self) -> (r: usize)
        ensures
            r == self.block_offset_spec(),
    {
        self.block_offset
    }

    pub fn eof_known(&self) -> (r: bool)
        ensures
            r == self.eof_known_spec(),
    {
        self.eof_known
    }

    /// Number of bytes read from the reference stream so far.
    pub fn read_len(&self) -> (r: usize)
        requires
            self.wf(),
        ensures
            r == self.consumed().len(),
    {
        self.read_len
    }

    /// The circular buffer; a served block is the range that its
    /// `BlockInfo` gives.
    pub fn buffer(&self) -> (r: &[u8])
        ensures
            r@ == self.buffer_spec(),
    {
        self.buf.as_slice()
    }
}

} // verus!
