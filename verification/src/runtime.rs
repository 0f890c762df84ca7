//! The producer runtime's decision logic, kept apart from the sockets and
//! tasks that act on it: the round-robin dispatch cursor that the single
//! dispatcher advances before every write, and the reassembly of
//! length-prefixed frames from arbitrarily fragmented reads.
use vstd::prelude::*;
use crate::codec::{blob_enc, pow256, lemma_word_bytes_len, lemma_word_round_trip, word_val};
use vstd::arithmetic::div_mod::{
    lemma_fundamental_div_mod,
    lemma_fundamental_div_mod_converse,
    lemma_mod_bound,
    lemma_mod_multiples_basic,
    lemma_small_mod,
};

verus! {

/// The advance rule of the dispatch cursor: one step forward, wrapping to 0
/// from the last slot (`pool_size - 1`).
pub open spec fn spec_advance(cursor: int, pool_size: int) -> int {
    if cursor >= pool_size - 1 {
        0
    } else {
        cursor + 1
    }
}

/// Where the cursor stands after `k` advances from 0.
pub open spec fn spec_cursor_after(k: nat, pool_size: int) -> int
    decreases k,
{
    if k == 0 {
        0
    } else {
        spec_advance(spec_cursor_after((k - 1) as nat, pool_size), pool_size)
    }
}

/// Round-robin law: starting from 0, the cursor after `k` advances is
/// `k mod pool_size`, so the `k`-th frame sent (counting from 1) goes to
/// slot `k mod pool_size`: slots `1, 2, ..., pool_size - 1, 0, 1, ...` in
/// turn.
pub proof fn lemma_round_robin(k: nat, pool_size: int)
    requires
        pool_size >= 1,
    ensures
        spec_cursor_after(k, pool_size) == k as int % pool_size,
    decreases k,
{
    if k == 0 {
        lemma_small_mod(0, pool_size as nat);
    } else {
        lemma_round_robin((k - 1) as nat, pool_size);
        let prev = (k - 1) as int % pool_size;
        lemma_mod_bound((k - 1) as int, pool_size);
        lemma_fundamental_div_mod((k - 1) as int, pool_size);
        let q = (k - 1) as int / pool_size;
        if prev >= pool_size - 1 {
            assert(k as int == (q + 1) * pool_size) by (nonlinear_arith)
                requires
                    (k - 1) as int == pool_size * q + prev,
                    prev == pool_size - 1,
            ;
            lemma_mod_multiples_basic(q + 1, pool_size);
        } else {
            assert(k as int == q * pool_size + (prev + 1)) by (nonlinear_arith)
                requires
                    (k - 1) as int == pool_size * q + prev,
            ;
            lemma_fundamental_div_mod_converse(k as int, pool_size, q, prev + 1);
        }
    }
}

/// The shared cursor that the single dispatcher owns: it tracks the
/// last-used connection slot and is advanced before each write.
pub struct DispatchCursor {
    cursor: u32,
    pool_size: u32,
}

impl DispatchCursor {
    /// The last-used slot index.
    pub closed spec fn cursor(&self) -> nat {
        self.cursor as nat
    }

    /// How many connection slots the pool holds.
    pub closed spec fn pool(&self) -> nat {
        self.pool_size as nat
    }

    /// A cursor is well formed when the pool is not empty and the cursor
    /// points at one of its slots.
    pub open spec fn wf(&self) -> bool {
        1 <= self.pool() && self.cursor() < self.pool()
    }

    /// A cursor over `pool_size` slots, reset to slot 0.
    pub fn new(pool_size: u32) -> (r: DispatchCursor)
        requires
            pool_size >= 1,
        ensures
            r.wf(),
            r.cursor() == 0,
            r.pool() == pool_size,
    {
        DispatchCursor { cursor: 0, pool_size }
    }

    /// Advances the cursor one step, wrapping at the end of the pool, and
    /// returns the slot the next frame goes to.
    pub fn next_slot(&mut self) -> (slot: u32)
        requires
            old(self).wf(),
        ensures
            final(self).wf(),
            final(self).pool() == old(self).pool(),
            final(self).cursor() as int == spec_advance(
                old(self).cursor() as int,
                old(self).pool() as int,
            ),
            slot as nat == final(self).cursor(),
            slot < old(self).pool(),
    {
        if self.cursor >= self.pool_size - 1 {
            self.cursor = 0;
        } else {
            self.cursor = self.cursor + 1;
        }
        self.cursor
    }
}

/// What one whole frame at the front of the buffered bytes splits into: the
/// body whose length the 8-byte big-endian prefix declares, and the bytes
/// that follow it. Nothing, while the buffer holds less than one frame.
pub open spec fn spec_frame_split(buf: Seq<u8>) -> Option<(Seq<u8>, Seq<u8>)> {
    if buf.len() >= 8 {
        let n = word_val(true, buf.subrange(0, 8)) as int;
        if 8 + n <= buf.len() {
            Some((buf.subrange(8, 8 + n), buf.subrange(8 + n, buf.len() as int)))
        } else {
            None
        }
    } else {
        None
    }
}

/// Reassembles length-prefixed frames from a connection's reads, however
/// the bytes were fragmented on the way: bytes are fed in as they arrive
/// and exactly one whole frame comes out at a time, once its declared
/// length is fully buffered.
pub struct FrameAssembler {
    buf: Vec<u8>,
}

impl FrameAssembler {
    /// The bytes received so far and not yet taken out as frames.
    pub closed spec fn buffered(&self) -> Seq<u8> {
        self.buf@
    }

    /// An assembler with nothing buffered.
    pub fn new() -> (r: FrameAssembler)
        ensures
            r.buffered() == Seq::<u8>::empty(),
    {
        FrameAssembler { buf: Vec::new() }
    }

    /// Feeds one fragment of received bytes: the buffer is simply extended,
    /// so any fragmentation of the same byte stream leaves the same state.
    pub fn feed(&mut self, chunk: &Vec<u8>)
        ensures
            final(self).buffered() == old(self).buffered() + chunk@,
    {
        push_chunk(&mut self.buf, chunk);
    }

    /// Takes one whole frame's body off the front of the buffer, once the
    /// length the 8-byte prefix declares is fully buffered; otherwise leaves
    /// the buffer alone.
    pub fn try_take_frame(&mut self) -> (r: Option<Vec<u8>>)
        ensures
            match spec_frame_split(old(self).buffered()) {
                Some(br) => r matches Some(v) && v@ == br.0 && final(self).buffered() == br.1,
                None => r is None && final(self).buffered() == old(self).buffered(),
            },
    {
        if self.buf.len() < 8 {
            return None;
        }
        let len = read_frame_len(&self.buf);
        let rem = self.buf.len() - 8;
        if len > rem as u64 {
            return None;
        }
        let n = len as usize;
        let body = take_range(&self.buf, 8, n);
        let rest = take_range(&self.buf, 8 + n, self.buf.len() - 8 - n);
        proof {
            assert(self.buf@.subrange(
                8 + n as int,
                8 + n as int + (self.buf@.len() - 8 - n as int),
            ) =~= self.buf@.subrange(8 + n as int, self.buf@.len() as int));
        }
        self.buf = rest;
        Some(body)
    }
}

/// Reads the 8-byte big-endian length word at the front of `buf`.
fn read_frame_len(buf: &Vec<u8>) -> (r: u64)
    requires
        buf.len() >= 8,
    ensures
        r as nat == word_val(true, buf@.subrange(0, 8)),
{
    let mut acc: u64 = 0;
    let mut i: usize = 0;
    proof {
        assert(buf@.subrange(0, 0) =~= Seq::<u8>::empty());
    }
    while i < 8
        invariant
            i <= 8,
            buf.len() >= 8,
            acc as nat == word_val(true, buf@.subrange(0, i as int)),
            (acc as nat) < pow256(i as nat),
        decreases 8 - i,
    {
        proof {
            crate::codec::lemma_pow256_increases(i as nat, 7);
            crate::codec::lemma_pow256_values();
            crate::codec::lemma_word_val_be_push(buf@.subrange(0, i as int), buf@[i as int]);
            assert(buf@.subrange(0, i as int + 1) =~= buf@.subrange(0, i as int).push(
                buf@[i as int],
            ));
        }
        acc = acc * 256 + (buf[i] as u64);
        i = i + 1;
    }
    acc
}

/// Copies `n` bytes starting at `start` into a fresh vector.
fn take_range(data: &Vec<u8>, start: usize, n: usize) -> (r: Vec<u8>)
    requires
        start + n <= data.len(),
    ensures
        r@ == data@.subrange(start as int, start as int + n as int),
{
    let mut out: Vec<u8> = Vec::new();
    proof {
        assert(data@.subrange(start as int, start as int) =~= Seq::<u8>::empty());
    }
    let mut i: usize = 0;
    while i < n
        invariant
            i <= n,
            start + n <= data.len(),
            out@ == data@.subrange(start as int, start as int + i as int),
        decreases n - i,
    {
        out.push(data[start + i]);
        proof {
            assert(data@.subrange(start as int, start as int + i as int + 1) =~= data@.subrange(
                start as int,
                start as int + i as int,
            ).push(data@[start as int + i as int]));
        }
        i = i + 1;
    }
    out
}

/// Appends all of `chunk` to `out`.
fn push_chunk(out: &mut Vec<u8>, chunk: &Vec<u8>)
    ensures
        final(out)@ == old(out)@ + chunk@,
{
    proof {
        assert(out@ + chunk@.subrange(0, 0) =~= out@);
    }
    let mut i: usize = 0;
    while i < chunk.len()
        invariant
            i <= chunk.len(),
            out@ == old(out)@ + chunk@.subrange(0, i as int),
        decreases chunk.len() - i,
    {
        out.push(chunk[i]);
        proof {
            assert(old(out)@ + chunk@.subrange(0, i as int + 1) =~= (old(out)@ + chunk@.subrange(
                0,
                i as int,
            )).push(chunk@[i as int]));
        }
        i = i + 1;
    }
    proof {
        assert(chunk@.subrange(0, chunk@.len() as int) =~= chunk@);
    }
}

/// Framing law: however a frame was fragmented on the way in, once the
/// buffered bytes amount to one whole length-prefixed frame followed by
/// anything else, exactly the body the 8-byte prefix declares comes out and
/// the remainder stays buffered.
pub proof fn lemma_frame_reassembly(body: Seq<u8>, rest: Seq<u8>)
    requires
        body.len() < pow256(8),
    ensures
        spec_frame_split(blob_enc(true, body) + rest) == Some((body, rest)),
{
    let buf = blob_enc(true, body) + rest;
    lemma_word_bytes_len(true, body.len(), 8);
    assert(buf.subrange(0, 8) =~= crate::codec::word_bytes(true, body.len(), 8));
    lemma_word_round_trip(true, body.len(), 8);
    assert(buf.subrange(8, 8 + body.len() as int) =~= body);
    assert(buf.subrange(8 + body.len() as int, buf.len() as int) =~= rest);
}

} // verus!
