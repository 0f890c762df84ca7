//! The binary codec behind the wire format: one growable byte sequence with
//! a read cursor, a selectable endianness and a fixed-point scale factor.
//!
//! Writers append fixed-width words (16/32/64 bits), booleans, length-prefixed
//! blobs and variable-width strings; readers consume the same fields in the
//! order they were written. Every encoding is pinned down bit-exactly by the
//! spec functions of this module, and decoding failures (short input, invalid
//! UTF-8) are explicit [`CodecError`] values rather than fabricated zero
//! values.
use vstd::prelude::*;
use vstd::arithmetic::div_mod::lemma_fundamental_div_mod;
use vstd::arithmetic::mul::lemma_mul_inequality;
use vstd::string::StrSliceExecFns;
use vstd::utf8::{decode_utf8, encode_utf8, valid_utf8};

verus! {

/// Why a read off the buffer failed.
#[derive(Clone, Copy, Debug, PartialEq, Eq, Structural)]
pub enum CodecError {
    /// Fewer bytes were left before the cursor ran out than the field needs.
    Underflow,
    /// A decoded string field does not hold valid UTF-8.
    InvalidUtf8,
}

/// Which end of a multi-byte word comes first on the wire.
#[derive(Clone, Copy, Debug, PartialEq, Eq, Structural)]
pub enum Endianness {
    Big,
    Little,
}

/// 256 to the power `n`: the number of values an `n`-byte word can hold.
pub open spec fn pow256(n: nat) -> nat
    decreases n,
{
    if n == 0 {
        1
    } else {
        256 * pow256((n - 1) as nat)
    }
}

/// The `n`-byte big-endian encoding of `v` (most significant byte first).
pub open spec fn word_bytes_be(v: nat, n: nat) -> Seq<u8>
    decreases n,
{
    if n == 0 {
        Seq::empty()
    } else {
        word_bytes_be(v / 256, (n - 1) as nat) + seq![(v % 256) as u8]
    }
}

/// The `n`-byte little-endian encoding of `v` (least significant byte first).
pub open spec fn word_bytes_le(v: nat, n: nat) -> Seq<u8>
    decreases n,
{
    if n == 0 {
        Seq::empty()
    } else {
        seq![(v % 256) as u8] + word_bytes_le(v / 256, (n - 1) as nat)
    }
}

/// The value a byte sequence denotes when read as a big-endian word.
pub open spec fn word_val_be(s: Seq<u8>) -> nat
    decreases s.len(),
{
    if s.len() == 0 {
        0
    } else {
        (word_val_be(s.drop_last()) * 256 + s.last()) as nat
    }
}

/// The value a byte sequence denotes when read as a little-endian word.
pub open spec fn word_val_le(s: Seq<u8>) -> nat
    decreases s.len(),
{
    if s.len() == 0 {
        0
    } else {
        (s[0] + 256 * word_val_le(s.subrange(1, s.len() as int))) as nat
    }
}

/// The `n`-byte encoding of `v` in the chosen endianness.
pub open spec fn word_bytes(big: bool, v: nat, n: nat) -> Seq<u8> {
    if big {
        word_bytes_be(v, n)
    } else {
        word_bytes_le(v, n)
    }
}

/// The value of a byte sequence in the chosen endianness.
pub open spec fn word_val(big: bool, s: Seq<u8>) -> nat {
    if big {
        word_val_be(s)
    } else {
        word_val_le(s)
    }
}

/// The unsigned word that carries a signed 16-bit value (two's complement).
pub open spec fn u16_of_i16(v: i16) -> nat {
    if v >= 0 {
        v as nat
    } else {
        (v + 0x1_0000) as nat
    }
}

/// The signed 16-bit value carried by an unsigned word below 2^16.
pub open spec fn i16_of_u16(v: nat) -> int {
    if v < 0x8000 {
        v as int
    } else {
        v - 0x1_0000
    }
}

/// The unsigned word that carries a signed 32-bit value (two's complement).
pub open spec fn u32_of_i32(v: i32) -> nat {
    if v >= 0 {
        v as nat
    } else {
        (v + 0x1_0000_0000) as nat
    }
}

/// The signed 32-bit value carried by an unsigned word below 2^32.
pub open spec fn i32_of_u32(v: nat) -> int {
    if v < 0x8000_0000 {
        v as int
    } else {
        v - 0x1_0000_0000
    }
}

/// The unsigned word that carries a signed 64-bit value (two's complement).
pub open spec fn u64_of_i64(v: i64) -> nat {
    if v >= 0 {
        v as nat
    } else {
        (v + 0x1_0000_0000_0000_0000) as nat
    }
}

/// The signed 64-bit value carried by an unsigned word below 2^64.
pub open spec fn i64_of_u64(v: nat) -> int {
    if v < 0x8000_0000_0000_0000 {
        v as int
    } else {
        v - 0x1_0000_0000_0000_0000
    }
}

/// The byte that carries a boolean: 1 for true, 0 for false.
pub open spec fn byte_of_bool(v: bool) -> u8 {
    if v {
        1
    } else {
        0
    }
}

/// A length-prefixed blob: an 8-byte length word, then the raw bytes.
pub open spec fn blob_enc(big: bool, b: Seq<u8>) -> Seq<u8> {
    word_bytes(big, b.len(), 8) + b
}

/// Width in bytes of the length field that a string tag byte selects:
/// tag 1 reads an 8-bit length, 2 a 16-bit, 3 a 32-bit, anything else a
/// 64-bit one.
pub open spec fn str_len_width(tag: u8) -> nat {
    if tag == 1 {
        1
    } else if tag == 2 {
        2
    } else if tag == 3 {
        4
    } else {
        8
    }
}

/// The variable-width string encoding of the UTF-8 bytes `b`: the smallest
/// length-prefix width that fits `b.len()` picks the tag; an empty string is
/// written as the sentinel tag 1, length 1, byte `b'X'`.
pub open spec fn vstr_enc(big: bool, b: Seq<u8>) -> Seq<u8> {
    if b.len() == 0 {
        seq![1u8, 1u8, 88u8]
    } else if b.len() < 128 {
        seq![1u8] + word_bytes(big, b.len(), 1) + b
    } else if b.len() < 32768 {
        seq![2u8] + word_bytes(big, b.len(), 2) + b
    } else if b.len() < 0x8000_0000 {
        seq![3u8] + word_bytes(big, b.len(), 4) + b
    } else {
        seq![4u8] + word_bytes(big, b.len(), 8) + b
    }
}

/// Reading an `n`-byte word at position `p`: the value and the new cursor,
/// or underflow when fewer than `n` bytes are left.
pub open spec fn dec_word(big: bool, s: Seq<u8>, p: int, n: nat) -> Result<(nat, int), CodecError> {
    if 0 <= p && p + n <= s.len() {
        Ok((word_val(big, s.subrange(p, p + n)), p + n))
    } else {
        Err(CodecError::Underflow)
    }
}

/// Reading a length-prefixed blob at position `p`: the raw bytes and the new
/// cursor, or underflow.
pub open spec fn dec_blob(big: bool, s: Seq<u8>, p: int) -> Result<(Seq<u8>, int), CodecError> {
    match dec_word(big, s, p, 8) {
        Ok(vp) => {
            if vp.1 + vp.0 <= s.len() {
                Ok((s.subrange(vp.1, vp.1 + vp.0), vp.1 + vp.0))
            } else {
                Err(CodecError::Underflow)
            }
        },
        Err(e) => Err(e),
    }
}

/// Reading a variable-width string at position `p`: tag byte, then the
/// length field the tag selects, then that many raw bytes, decoded as UTF-8.
/// The one-byte sentinel `b'X'` decodes to the empty string.
pub open spec fn dec_string(big: bool, s: Seq<u8>, p: int) -> Result<
    (Seq<char>, int),
    CodecError,
> {
    if !(0 <= p && p + 1 <= s.len()) {
        Err(CodecError::Underflow)
    } else {
        let w = str_len_width(s[p]) as int;
        if p + 1 + w > s.len() {
            Err(CodecError::Underflow)
        } else {
            let n = word_val(big, s.subrange(p + 1, p + 1 + w)) as int;
            if p + 1 + w + n > s.len() {
                Err(CodecError::Underflow)
            } else {
                let raw = s.subrange(p + 1 + w, p + 1 + w + n);
                if raw == seq![88u8] {
                    Ok((Seq::<char>::empty(), p + 1 + w + n))
                } else if valid_utf8(raw) {
                    Ok((decode_utf8(raw), p + 1 + w + n))
                } else {
                    Err(CodecError::InvalidUtf8)
                }
            }
        }
    }
}

/// The powers of 256 up to eight bytes, spelled out.
pub proof fn lemma_pow256_values()
    ensures
        pow256(0) == 1,
        pow256(1) == 0x100,
        pow256(2) == 0x1_0000,
        pow256(4) == 0x1_0000_0000,
        pow256(7) == 0x100_0000_0000_0000,
        pow256(8) == 0x1_0000_0000_0000_0000,
{
    assert(pow256(0) == 1);
    assert(pow256(1) == 0x100);
    assert(pow256(2) == 0x1_0000);
    assert(pow256(3) == 0x100_0000);
    assert(pow256(4) == 0x1_0000_0000);
    assert(pow256(5) == 0x100_0000_0000);
    assert(pow256(6) == 0x1_0000_0000_0000);
    assert(pow256(7) == 0x100_0000_0000_0000);
    assert(pow256(8) == 0x1_0000_0000_0000_0000);
}

/// Powers of 256 are positive.
pub proof fn lemma_pow256_pos(n: nat)
    ensures
        pow256(n) >= 1,
    decreases n,
{
    if n > 0 {
        lemma_pow256_pos((n - 1) as nat);
    }
}

/// Powers of 256 grow with the exponent.
pub proof fn lemma_pow256_increases(a: nat, b: nat)
    requires
        a <= b,
    ensures
        pow256(a) <= pow256(b),
    decreases b,
{
    if a < b {
        lemma_pow256_increases(a, (b - 1) as nat);
        lemma_pow256_pos((b - 1) as nat);
    }
}

/// Dividing a value below 256^n by 256 lands below 256^(n-1).
proof fn lemma_div256_bound(v: nat, n: nat)
    requires
        n >= 1,
        v < pow256(n),
    ensures
        v / 256 < pow256((n - 1) as nat),
{
    let p = pow256((n - 1) as nat);
    lemma_pow256_pos((n - 1) as nat);
    if v / 256 >= p {
        lemma_mul_inequality(p as int, (v / 256) as int, 256);
        lemma_fundamental_div_mod(v as int, 256);
        assert(false);
    }
}

/// An `n`-byte word encoding has exactly `n` bytes.
pub proof fn lemma_word_bytes_len(big: bool, v: nat, n: nat)
    ensures
        word_bytes(big, v, n).len() == n,
    decreases n,
{
    if n > 0 {
        lemma_word_bytes_len(big, v / 256, (n - 1) as nat);
    }
}

/// The value a byte sequence denotes is below 256 to its length.
pub proof fn lemma_word_val_bound(big: bool, s: Seq<u8>)
    ensures
        word_val(big, s) < pow256(s.len()),
    decreases s.len(),
{
    if s.len() == 0 {
    } else if big {
        let head = s.drop_last();
        lemma_word_val_bound(big, head);
        let p = pow256(head.len());
        assert(word_val_be(head) * 256 + 255 < p * 256) by (nonlinear_arith)
            requires
                word_val_be(head) < p,
        ;
    } else {
        let tail = s.subrange(1, s.len() as int);
        lemma_word_val_bound(big, tail);
        let p = pow256(tail.len());
        assert(255 + 256 * word_val_le(tail) < 256 * p) by (nonlinear_arith)
            requires
                word_val_le(tail) < p,
        ;
    }
}

/// Round trip at the word level: reading back the `n`-byte encoding of any
/// value below 256^n yields that value, in either endianness.
pub proof fn lemma_word_round_trip(big: bool, v: nat, n: nat)
    requires
        v < pow256(n),
    ensures
        word_val(big, word_bytes(big, v, n)) == v,
    decreases n,
{
    if n == 0 {
    } else {
        lemma_div256_bound(v, n);
        lemma_word_round_trip(big, v / 256, (n - 1) as nat);
        lemma_word_bytes_len(big, v / 256, (n - 1) as nat);
        lemma_fundamental_div_mod(v as int, 256);
        if big {
            let head = word_bytes_be(v / 256, (n - 1) as nat);
            let whole = head + seq![(v % 256) as u8];
            assert(whole.drop_last() =~= head);
            assert(whole.last() == (v % 256) as u8);
        } else {
            let tail = word_bytes_le(v / 256, (n - 1) as nat);
            let whole = seq![(v % 256) as u8] + tail;
            assert(whole.subrange(1, whole.len() as int) =~= tail);
            assert(whole[0] == (v % 256) as u8);
        }
    }
}

/// A word embedded between arbitrary bytes reads back as itself: the general
/// round trip for every fixed-width scalar of the wire format.
pub proof fn lemma_word_extract(big: bool, v: nat, n: nat, pre: Seq<u8>, tail: Seq<u8>)
    requires
        v < pow256(n),
    ensures
        dec_word(big, pre + word_bytes(big, v, n) + tail, pre.len() as int, n) == Ok::<
            (nat, int),
            CodecError,
        >((v, pre.len() as int + n as int)),
{
    let enc = word_bytes(big, v, n);
    lemma_word_bytes_len(big, v, n);
    let s = pre + enc + tail;
    assert(s.subrange(pre.len() as int, pre.len() as int + n as int) =~= enc);
    lemma_word_round_trip(big, v, n);
}

/// Appending one byte to a big-endian word shifts its value up by one place.
pub proof fn lemma_word_val_be_push(s: Seq<u8>, b: u8)
    ensures
        word_val_be(s.push(b)) == word_val_be(s) * 256 + b,
{
    assert(s.push(b).drop_last() =~= s);
    assert(s.push(b).last() == b);
}

fn i16_to_word(v: i16) -> (r: u16)
    ensures
        r as nat == u16_of_i16(v),
{
    if v >= 0 {
        v as u16
    } else {
        ((v as i32) + 0x1_0000) as u16
    }
}

fn word_to_i16(v: u16) -> (r: i16)
    ensures
        r as int == i16_of_u16(v as nat),
{
    if v < 0x8000 {
        v as i16
    } else {
        ((v as i32) - 0x1_0000) as i16
    }
}

fn i32_to_word(v: i32) -> (r: u32)
    ensures
        r as nat == u32_of_i32(v),
{
    if v >= 0 {
        v as u32
    } else {
        ((v as i64) + 0x1_0000_0000) as u32
    }
}

fn word_to_i32(v: u32) -> (r: i32)
    ensures
        r as int == i32_of_u32(v as nat),
{
    if v < 0x8000_0000 {
        v as i32
    } else {
        ((v as i64) - 0x1_0000_0000) as i32
    }
}

fn i64_to_word(v: i64) -> (r: u64)
    ensures
        r as nat == u64_of_i64(v),
{
    if v >= 0 {
        v as u64
    } else {
        ((v as i128) + 0x1_0000_0000_0000_0000) as u64
    }
}

fn word_to_i64(v: u64) -> (r: i64)
    ensures
        r as int == i64_of_u64(v as nat),
{
    if v < 0x8000_0000_0000_0000 {
        v as i64
    } else {
        ((v as i128) - 0x1_0000_0000_0000_0000) as i64
    }
}

/// Appends the `n`-byte encoding of `v` in the chosen endianness.
fn push_word(big: bool, out: &mut Vec<u8>, v: u64, n: usize)
    requires
        (v as nat) < pow256(n as nat),
    ensures
        final(out)@ == old(out)@ + word_bytes(big, v as nat, n as nat),
    decreases n,
{
    if n == 0 {
        proof {
            assert(out@ + word_bytes(big, v as nat, 0) =~= out@);
        }
    } else if big {
        proof {
            lemma_div256_bound(v as nat, n as nat);
        }
        push_word(big, out, v / 256, n - 1);
        out.push((v % 256) as u8);
        proof {
            assert(out@ =~= old(out)@ + word_bytes_be(v as nat, n as nat));
        }
    } else {
        proof {
            lemma_div256_bound(v as nat, n as nat);
        }
        out.push((v % 256) as u8);
        push_word(big, out, v / 256, n - 1);
        proof {
            assert(out@ =~= old(out)@ + word_bytes_le(v as nat, n as nat));
        }
    }
}

/// Reads the `n`-byte word at `pos` in the chosen endianness.
fn read_word_at(big: bool, data: &Vec<u8>, pos: usize, n: usize) -> (r: u64)
    requires
        n <= 8,
        pos + n <= data.len(),
    ensures
        r as nat == word_val(big, data@.subrange(pos as int, pos as int + n as int)),
{
    proof {
        lemma_pow256_values();
    }
    if big {
        let mut acc: u64 = 0;
        let mut i: usize = 0;
        proof {
            assert(data@.subrange(pos as int, pos as int) =~= Seq::<u8>::empty());
        }
        while i < n
            invariant
                i <= n,
                n <= 8,
                pos + n <= data.len(),
                acc as nat == word_val_be(data@.subrange(pos as int, pos as int + i as int)),
                (acc as nat) < pow256(i as nat),
            decreases n - i,
        {
            proof {
                lemma_pow256_increases(i as nat, 7);
                lemma_pow256_values();
                lemma_word_val_be_push(
                    data@.subrange(pos as int, pos as int + i as int),
                    data@[pos as int + i as int],
                );
                assert(data@.subrange(pos as int, pos as int + i as int + 1) =~= data@.subrange(
                    pos as int,
                    pos as int + i as int,
                ).push(data@[pos as int + i as int]));
            }
            acc = acc * 256 + (data[pos + i] as u64);
            i = i + 1;
        }
        acc
    } else {
        let mut acc: u64 = 0;
        let mut i: usize = n;
        proof {
            assert(data@.subrange(pos as int + n as int, pos as int + n as int) =~= Seq::<
                u8,
            >::empty());
        }
        while i > 0
            invariant
                i <= n,
                n <= 8,
                pos + n <= data.len(),
                acc as nat == word_val_le(
                    data@.subrange(pos as int + i as int, pos as int + n as int),
                ),
                (acc as nat) < pow256((n - i) as nat),
            decreases i,
        {
            proof {
                lemma_pow256_increases((n - i) as nat, 7);
                lemma_pow256_values();
                let ext = data@.subrange(pos as int + i as int - 1, pos as int + n as int);
                assert(ext.subrange(1, ext.len() as int) =~= data@.subrange(
                    pos as int + i as int,
                    pos as int + n as int,
                ));
                assert(ext[0] == data@[pos as int + i as int - 1]);
            }
            acc = acc * 256 + (data[pos + i - 1] as u64);
            i = i - 1;
        }
        acc
    }
}

/// Copies `n` bytes starting at `start` into a fresh vector.
fn copy_range(data: &Vec<u8>, start: usize, n: usize) -> (r: Vec<u8>)
    requires
        start + n <= data.len(),
    ensures
        r@ == data@.subrange(start as int, start as int + n as int),
{
    let mut out: Vec<u8> = Vec::new();
    proof {
        assert(data@.subrange(start as int, start as int) =~= Seq::<u8>::empty());
    }
    let mut i: usize = 0;
    while i < n
        invariant
            i <= n,
            start + n <= data.len(),
            out@ == data@.subrange(start as int, start as int + i as int),
        decreases n - i,
    {
        out.push(data[start + i]);
        proof {
            assert(data@.subrange(start as int, start as int + i as int + 1) =~= data@.subrange(
                start as int,
                start as int + i as int,
            ).push(data@[start as int + i as int]));
        }
        i = i + 1;
    }
    out
}

/// Appends all of `b` to `out`.
fn push_bytes(out: &mut Vec<u8>, b: &Vec<u8>)
    ensures
        final(out)@ == old(out)@ + b@,
{
    proof {
        assert(out@ + b@.subrange(0, 0) =~= out@);
    }
    let mut i: usize = 0;
    while i < b.len()
        invariant
            i <= b.len(),
            out@ == old(out)@ + b@.subrange(0, i as int),
        decreases b.len() - i,
    {
        out.push(b[i]);
        proof {
            assert(old(out)@ + b@.subrange(0, i as int + 1) =~= (old(out)@ + b@.subrange(
                0,
                i as int,
            )).push(b@[i as int]));
        }
        i = i + 1;
    }
    proof {
        assert(b@.subrange(0, b@.len() as int) =~= b@);
    }
}

/// Relies on `String::from_utf8`: it succeeds exactly on input that is valid
/// UTF-8 and then returns the characters those bytes encode.
#[verifier::external_body]
fn bytes_to_string(bytes: Vec<u8>) -> (r: Option<String>)
    ensures
        r is Some <==> valid_utf8(bytes@),
        r matches Some(s) ==> s@ == decode_utf8(bytes@),
{
    String::from_utf8(bytes).ok()
}

/// True when two buffers agree on everything but their byte content and
/// cursor: the endianness and the fixed-point scale factor.
pub open spec fn same_config(a: ByteBuff, b: ByteBuff) -> bool {
    a.multiplier == b.multiplier && a.endian == b.endian
}

/// One in-memory byte sequence with an implicit cursor. Writers append at
/// the end; readers consume from the cursor in the order fields were
/// written. A buffer is either being built (write-only) or has been wrapped
/// over received bytes (read-only); mixing the two in one pass is not
/// meaningful.
pub struct ByteBuff {
    /// Fixed-point scale factor for float fields. The library carries float
    /// values as non-negative scaled units (`value * multiplier`, truncated
    /// toward zero); the conversion from and to a floating-point value
    /// happens at the embedding boundary, which also decides the policy for
    /// negative values (they are rejected there, never silently wrapped).
    /// Zero means unset and is replaced by the default 10000.
    pub multiplier: u64,
    /// Byte order of every multi-byte word written or read.
    pub endian: Endianness,
    /// The accumulated (or wrapped) byte content.
    pub data: Vec<u8>,
    /// The read cursor: an index into `data` that reads consume from.
    pub pos: usize,
}

impl ByteBuff {
    /// The accumulated (or wrapped) byte content.
    pub open spec fn bytes(&self) -> Seq<u8> {
        self.data@
    }

    /// The read cursor.
    pub open spec fn cursor(&self) -> nat {
        self.pos as nat
    }

    /// Whether multi-byte words use big-endian order.
    pub open spec fn is_big(&self) -> bool {
        self.endian == Endianness::Big
    }

    /// The cursor never points past the end of the content.
    pub open spec fn wf(&self) -> bool {
        self.cursor() <= self.bytes().len()
    }

    /// An empty buffer with the given byte order; a zero scale factor is
    /// replaced by the default 10000.
    pub fn new(endian: Endianness, multiplier: u64) -> (r: ByteBuff)
        ensures
            r.endian == endian,
            r.multiplier == if multiplier == 0 { 10000u64 } else { multiplier },
            r.bytes() == Seq::<u8>::empty(),
            r.cursor() == 0,
            r.wf(),
    {
        ByteBuff {
            multiplier: if multiplier == 0 { 10000 } else { multiplier },
            endian,
            data: Vec::new(),
            pos: 0,
        }
    }

    /// Sets the byte order and applies the default scale factor where none
    /// was set, leaving the content and cursor alone.
    pub fn init(&mut self, endian: Endianness)
        ensures
            final(self).endian == endian,
            final(self).multiplier == if old(self).multiplier == 0 {
                10000u64
            } else {
                old(self).multiplier
            },
            final(self).bytes() == old(self).bytes(),
            final(self).cursor() == old(self).cursor(),
    {
        self.endian = endian;
        if self.multiplier == 0 {
            self.multiplier = 10000;
        }
    }

    /// Resets the buffer to read over the given received bytes.
    pub fn wrap(&mut self, byte_data: Vec<u8>)
        ensures
            final(self).bytes() == byte_data@,
            final(self).cursor() == 0,
            same_config(*old(self), *final(self)),
            final(self).wf(),
    {
        self.data = byte_data;
        self.pos = 0;
    }

    /// The full accumulated byte sequence, cursor ignored.
    pub fn to_array(&self) -> (r: Vec<u8>)
        ensures
            r@ == self.bytes(),
    {
        let r = copy_range(&self.data, 0, self.data.len());
        proof {
            assert(self.data@.subrange(0, self.data@.len() as int) =~= self.data@);
        }
        r
    }

    /// Appends a signed 16-bit word.
    pub fn put_short(&mut self, value: i16)
        ensures
            final(self).bytes() == old(self).bytes() + word_bytes(
                old(self).is_big(),
                u16_of_i16(value),
                2,
            ),
            final(self).cursor() == old(self).cursor(),
            same_config(*old(self), *final(self)),
    {
        proof {
            lemma_pow256_values();
        }
        let big = self.endian == Endianness::Big;
        let w = i16_to_word(value);
        push_word(big, &mut self.data, w as u64, 2);
    }

    /// Appends a signed 32-bit word.
    pub fn put_int(&mut self, value: i32)
        ensures
            final(self).bytes() == old(self).bytes() + word_bytes(
                old(self).is_big(),
                u32_of_i32(value),
                4,
            ),
            final(self).cursor() == old(self).cursor(),
            same_config(*old(self), *final(self)),
    {
        proof {
            lemma_pow256_values();
        }
        let big = self.endian == Endianness::Big;
        let w = i32_to_word(value);
        push_word(big, &mut self.data, w as u64, 4);
    }

    /// Appends a signed 64-bit word.
    pub fn put_long(&mut self, value: i64)
        ensures
            final(self).bytes() == old(self).bytes() + word_bytes(
                old(self).is_big(),
                u64_of_i64(value),
                8,
            ),
            final(self).cursor() == old(self).cursor(),
            same_config(*old(self), *final(self)),
    {
        proof {
            lemma_pow256_values();
        }
        let big = self.endian == Endianness::Big;
        let w = i64_to_word(value);
        push_word(big, &mut self.data, w, 8);
    }

    /// Appends a fixed-point value, already scaled to whole units of
    /// `1 / multiplier` (see [`ByteBuff::multiplier`]), as an unsigned
    /// 64-bit word.
    pub fn put_float(&mut self, scaled: u64)
        ensures
            final(self).bytes() == old(self).bytes() + word_bytes(
                old(self).is_big(),
                scaled as nat,
                8,
            ),
            final(self).cursor() == old(self).cursor(),
            same_config(*old(self), *final(self)),
    {
        proof {
            lemma_pow256_values();
        }
        let big = self.endian == Endianness::Big;
        push_word(big, &mut self.data, scaled, 8);
    }

    /// Appends a boolean as one byte, 1 for true and 0 for false.
    pub fn put_bool(&mut self, value: bool)
        ensures
            final(self).bytes() == old(self).bytes() + seq![byte_of_bool(value)],
            final(self).cursor() == old(self).cursor(),
            same_config(*old(self), *final(self)),
    {
        if value {
            self.data.push(1);
        } else {
            self.data.push(0);
        }
        proof {
            assert(self.data@ =~= old(self).bytes() + seq![byte_of_bool(value)]);
        }
    }

    /// Appends a length-prefixed blob: an 8-byte length word, then the raw
    /// bytes.
    pub fn put(&mut self, value: Vec<u8>)
        ensures
            final(self).bytes() == old(self).bytes() + blob_enc(old(self).is_big(), value@),
            final(self).cursor() == old(self).cursor(),
            same_config(*old(self), *final(self)),
    {
        proof {
            lemma_pow256_values();
        }
        let big = self.endian == Endianness::Big;
        let len = value.len();
        push_word(big, &mut self.data, len as u64, 8);
        push_bytes(&mut self.data, &value);
        proof {
            assert(self.data@ =~= old(self).bytes() + blob_enc(old(self).is_big(), value@));
        }
    }

    /// Appends a variable-width string: the smallest length prefix that fits
    /// the UTF-8 byte length picks the tag; the empty string goes out as the
    /// sentinel tag 1, length 1, byte `b'X'`.
    pub fn put_string(&mut self, value: String)
        ensures
            final(self).bytes() == old(self).bytes() + vstr_enc(
                old(self).is_big(),
                encode_utf8(value@),
            ),
            final(self).cursor() == old(self).cursor(),
            same_config(*old(self), *final(self)),
    {
        proof {
            lemma_pow256_values();
        }
        let big = self.endian == Endianness::Big;
        let bytes = value.as_str().as_bytes_vec();
        if bytes.len() == 0 {
            self.data.push(1);
            self.data.push(1);
            self.data.push(88);
            proof {
                assert(self.data@ =~= old(self).bytes() + vstr_enc(
                    old(self).is_big(),
                    encode_utf8(value@),
                ));
            }
        } else {
            if bytes.len() < 128 {
                self.data.push(1);
                push_word(big, &mut self.data, bytes.len() as u64, 1);
            } else if bytes.len() < 32768 {
                self.data.push(2);
                push_word(big, &mut self.data, bytes.len() as u64, 2);
            } else if bytes.len() < 0x8000_0000 {
                self.data.push(3);
                push_word(big, &mut self.data, bytes.len() as u64, 4);
            } else {
                self.data.push(4);
                push_word(big, &mut self.data, bytes.len() as u64, 8);
            }
            push_bytes(&mut self.data, &bytes);
            proof {
                assert(self.data@ =~= old(self).bytes() + vstr_enc(
                    old(self).is_big(),
                    encode_utf8(value@),
                ));
            }
        }
    }

    /// Consumes the next `n`-byte word, or underflow without moving the
    /// cursor.
    fn take_word(&mut self, n: usize) -> (r: Result<u64, CodecError>)
        requires
            old(self).wf(),
            1 <= n <= 8,
        ensures
            final(self).wf(),
            final(self).bytes() == old(self).bytes(),
            same_config(*old(self), *final(self)),
            match dec_word(
                old(self).is_big(),
                old(self).bytes(),
                old(self).cursor() as int,
                n as nat,
            ) {
                Ok(vp) => r matches Ok(v) && v as nat == vp.0 && final(self).cursor() == vp.1,
                Err(e) => r == Err::<u64, CodecError>(e) && final(self).cursor() == old(
                    self,
                ).cursor(),
            },
    {
        let big = self.endian == Endianness::Big;
        if self.data.len() - self.pos >= n {
            let v = read_word_at(big, &self.data, self.pos, n);
            self.pos = self.pos + n;
            Ok(v)
        } else {
            Err(CodecError::Underflow)
        }
    }

    /// Consumes a signed 16-bit word.
    pub fn get_short(&mut self) -> (r: Result<i16, CodecError>)
        requires
            old(self).wf(),
        ensures
            final(self).wf(),
            final(self).bytes() == old(self).bytes(),
            same_config(*old(self), *final(self)),
            match dec_word(old(self).is_big(), old(self).bytes(), old(self).cursor() as int, 2) {
                Ok(vp) => r matches Ok(v) && v as int == i16_of_u16(vp.0) && final(self).cursor()
                    == vp.1,
                Err(e) => r == Err::<i16, CodecError>(e) && final(self).cursor() == old(
                    self,
                ).cursor(),
            },
    {
        match self.take_word(2) {
            Ok(v) => {
                proof {
                    lemma_pow256_values();
                    lemma_word_val_bound(
                        old(self).is_big(),
                        old(self).bytes().subrange(
                            old(self).cursor() as int,
                            old(self).cursor() as int + 2,
                        ),
                    );
                }
                Ok(word_to_i16(v as u16))
            },
            Err(e) => Err(e),
        }
    }

    /// Consumes a signed 32-bit word.
    pub fn get_int(&mut self) -> (r: Result<i32, CodecError>)
        requires
            old(self).wf(),
        ensures
            final(self).wf(),
            final(self).bytes() == old(self).bytes(),
            same_config(*old(self), *final(self)),
            match dec_word(old(self).is_big(), old(self).bytes(), old(self).cursor() as int, 4) {
                Ok(vp) => r matches Ok(v) && v as int == i32_of_u32(vp.0) && final(self).cursor()
                    == vp.1,
                Err(e) => r == Err::<i32, CodecError>(e) && final(self).cursor() == old(
                    self,
                ).cursor(),
            },
    {
        match self.take_word(4) {
            Ok(v) => {
                proof {
                    lemma_pow256_values();
                    lemma_word_val_bound(
                        old(self).is_big(),
                        old(self).bytes().subrange(
                            old(self).cursor() as int,
                            old(self).cursor() as int + 4,
                        ),
                    );
                }
                Ok(word_to_i32(v as u32))
            },
            Err(e) => Err(e),
        }
    }

    /// Consumes a signed 64-bit word.
    pub fn get_long(&mut self) -> (r: Result<i64, CodecError>)
        requires
            old(self).wf(),
        ensures
            final(self).wf(),
            final(self).bytes() == old(self).bytes(),
            same_config(*old(self), *final(self)),
            match dec_word(old(self).is_big(), old(self).bytes(), old(self).cursor() as int, 8) {
                Ok(vp) => r matches Ok(v) && v as int == i64_of_u64(vp.0) && final(self).cursor()
                    == vp.1,
                Err(e) => r == Err::<i64, CodecError>(e) && final(self).cursor() == old(
                    self,
                ).cursor(),
            },
    {
        match self.take_word(8) {
            Ok(v) => Ok(word_to_i64(v)),
            Err(e) => Err(e),
        }
    }

    /// Consumes a fixed-point value and returns it still scaled to whole
    /// units of `1 / multiplier` (see [`ByteBuff::multiplier`]).
    pub fn get_float(&mut self) -> (r: Result<u64, CodecError>)
        requires
            old(self).wf(),
        ensures
            final(self).wf(),
            final(self).bytes() == old(self).bytes(),
            same_config(*old(self), *final(self)),
            match dec_word(old(self).is_big(), old(self).bytes(), old(self).cursor() as int, 8) {
                Ok(vp) => r matches Ok(v) && v as nat == vp.0 && final(self).cursor() == vp.1,
                Err(e) => r == Err::<u64, CodecError>(e) && final(self).cursor() == old(
                    self,
                ).cursor(),
            },
    {
        self.take_word(8)
    }

    /// Consumes one byte as a boolean: true exactly when the byte is 1.
    pub fn get_bool(&mut self) -> (r: Result<bool, CodecError>)
        requires
            old(self).wf(),
        ensures
            final(self).wf(),
            final(self).bytes() == old(self).bytes(),
            same_config(*old(self), *final(self)),
            match dec_word(old(self).is_big(), old(self).bytes(), old(self).cursor() as int, 1) {
                Ok(vp) => r matches Ok(b) && b == (vp.0 == 1) && final(self).cursor() == vp.1,
                Err(e) => r == Err::<bool, CodecError>(e) && final(self).cursor() == old(
                    self,
                ).cursor(),
            },
    {
        match self.take_word(1) {
            Ok(v) => Ok(v == 1),
            Err(e) => Err(e),
        }
    }

    /// Consumes a length-prefixed blob: an 8-byte length word, then exactly
    /// that many raw bytes. On underflow the cursor does not move.
    pub fn get(&mut self) -> (r: Result<Vec<u8>, CodecError>)
        requires
            old(self).wf(),
        ensures
            final(self).wf(),
            final(self).bytes() == old(self).bytes(),
            same_config(*old(self), *final(self)),
            match dec_blob(old(self).is_big(), old(self).bytes(), old(self).cursor() as int) {
                Ok(bp) => r matches Ok(v) && v@ == bp.0 && final(self).cursor() == bp.1,
                Err(e) => r == Err::<Vec<u8>, CodecError>(e) && final(self).cursor() == old(
                    self,
                ).cursor(),
            },
    {
        let big = self.endian == Endianness::Big;
        if self.data.len() - self.pos < 8 {
            return Err(CodecError::Underflow);
        }
        let len = read_word_at(big, &self.data, self.pos, 8);
        let rem = self.data.len() - self.pos - 8;
        if len > rem as u64 {
            return Err(CodecError::Underflow);
        }
        let n = len as usize;
        let out = copy_range(&self.data, self.pos + 8, n);
        self.pos = self.pos + 8 + n;
        Ok(out)
    }

    /// Consumes a variable-width string: tag byte, length field of the width
    /// the tag selects, then that many raw bytes decoded as UTF-8. The
    /// one-byte sentinel `b'X'` comes back as the empty string. On a failure
    /// the cursor does not move.
    pub fn get_string(&mut self) -> (r: Result<String, CodecError>)
        requires
            old(self).wf(),
        ensures
            final(self).wf(),
            final(self).bytes() == old(self).bytes(),
            same_config(*old(self), *final(self)),
            match dec_string(old(self).is_big(), old(self).bytes(), old(self).cursor() as int) {
                Ok(cp) => r matches Ok(v) && v@ == cp.0 && final(self).cursor() == cp.1,
                Err(e) => r == Err::<String, CodecError>(e) && final(self).cursor() == old(
                    self,
                ).cursor(),
            },
    {
        let big = self.endian == Endianness::Big;
        let avail = self.data.len() - self.pos;
        if avail < 1 {
            return Err(CodecError::Underflow);
        }
        let tag = self.data[self.pos];
        let w: usize = if tag == 1 {
            1
        } else if tag == 2 {
            2
        } else if tag == 3 {
            4
        } else {
            8
        };
        if avail - 1 < w {
            return Err(CodecError::Underflow);
        }
        let len64 = read_word_at(big, &self.data, self.pos + 1, w);
        let rem = avail - 1 - w;
        if len64 > rem as u64 {
            return Err(CodecError::Underflow);
        }
        let n = len64 as usize;
        let raw = copy_range(&self.data, self.pos + 1 + w, n);
        let newpos = self.pos + 1 + w + n;
        if raw.len() == 1 && raw[0] == 88 {
            self.pos = newpos;
            proof {
                assert(raw@ =~= seq![88u8]);
            }
            return Ok(String::new());
        }
        proof {
            assert(raw@ != seq![88u8]) by {
                if raw@ == seq![88u8] {
                    assert(raw@.len() == 1);
                    assert(raw@[0] == 88u8);
                }
            }
        }
        match bytes_to_string(raw) {
            Some(sv) => {
                self.pos = newpos;
                Ok(sv)
            },
            None => Err(CodecError::InvalidUtf8),
        }
    }
}

/// A signed 16-bit value survives its unsigned wire carrier.
pub proof fn lemma_i16_carrier_round_trip(v: i16)
    ensures
        i16_of_u16(u16_of_i16(v)) == v as int,
{
}

/// A signed 32-bit value survives its unsigned wire carrier.
pub proof fn lemma_i32_carrier_round_trip(v: i32)
    ensures
        i32_of_u32(u32_of_i32(v)) == v as int,
{
}

/// A signed 64-bit value survives its unsigned wire carrier.
pub proof fn lemma_i64_carrier_round_trip(v: i64)
    ensures
        i64_of_u64(u64_of_i64(v)) == v as int,
{
}

/// Round trip for blobs: a length-prefixed blob embedded between arbitrary
/// bytes decodes back to exactly the bytes that went in.
pub proof fn lemma_blob_round_trip(big: bool, b: Seq<u8>, pre: Seq<u8>, tail: Seq<u8>)
    requires
        b.len() < pow256(8),
    ensures
        dec_blob(big, pre + blob_enc(big, b) + tail, pre.len() as int) == Ok::<
            (Seq<u8>, int),
            CodecError,
        >((b, pre.len() as int + 8 + b.len() as int)),
{
    let s = pre + blob_enc(big, b) + tail;
    let p = pre.len() as int;
    lemma_word_bytes_len(big, b.len(), 8);
    assert(s.subrange(p, p + 8) =~= word_bytes(big, b.len(), 8));
    lemma_word_round_trip(big, b.len(), 8);
    assert(s.subrange(p + 8, p + 8 + b.len() as int) =~= b);
}

/// A character sequence has bytes exactly when it has characters.
pub proof fn lemma_encode_utf8_empty(s: Seq<char>)
    ensures
        s.len() == 0 <==> encode_utf8(s).len() == 0,
{
    if s.len() > 0 {
        assert(vstd::utf8::encode_scalar(s[0] as u32).len() >= 1);
    }
}

/// Round trip for strings: the variable-width encoding of any character
/// sequence, embedded between arbitrary bytes, decodes back to the same
/// characters. The one excluded input is the string whose UTF-8 bytes are
/// exactly the sentinel byte `b'X'`, which by design decodes to the empty
/// string instead.
pub proof fn lemma_string_round_trip(big: bool, s: Seq<char>, pre: Seq<u8>, tail: Seq<u8>)
    requires
        encode_utf8(s) != seq![88u8],
        encode_utf8(s).len() < pow256(8),
    ensures
        dec_string(big, pre + vstr_enc(big, encode_utf8(s)) + tail, pre.len() as int) == Ok::<
            (Seq<char>, int),
            CodecError,
        >((s, pre.len() as int + vstr_enc(big, encode_utf8(s)).len() as int)),
{
    let b = encode_utf8(s);
    let enc = vstr_enc(big, b);
    let full = pre + enc + tail;
    let p = pre.len() as int;
    lemma_encode_utf8_empty(s);
    if b.len() == 0 {
        assert(full[p] == 1u8);
        assert(full.subrange(p + 1, p + 2) =~= seq![1u8]);
        assert(word_val(big, seq![1u8]) == 1) by {
            assert(seq![1u8].drop_last() =~= Seq::<u8>::empty());
            assert(seq![1u8].subrange(1, 1) =~= Seq::<u8>::empty());
            assert(word_val_be(Seq::<u8>::empty()) == 0);
            assert(word_val_le(Seq::<u8>::empty()) == 0);
            assert(word_val_be(seq![1u8]) == 1);
            assert(word_val_le(seq![1u8]) == 1);
        }
        assert(full.subrange(p + 2, p + 3) =~= seq![88u8]);
        assert(s =~= Seq::<char>::empty());
    } else {
        let blen = b.len();
        let tag: u8 = if blen < 128 {
            1
        } else if blen < 32768 {
            2
        } else if blen < 0x8000_0000 {
            3
        } else {
            4
        };
        let w = str_len_width(tag);
        assert(enc =~= seq![tag] + word_bytes(big, blen, w) + b);
        assert(blen < pow256(w)) by {
            lemma_pow256_values();
        }
        lemma_word_bytes_len(big, blen, w);
        assert(full[p] == tag);
        assert(full.subrange(p + 1, p + 1 + w as int) =~= word_bytes(big, blen, w));
        lemma_word_round_trip(big, blen, w);
        assert(full.subrange(p + 1 + w as int, p + 1 + w as int + blen as int) =~= b);
        vstd::utf8::encode_utf8_valid_utf8(s);
        vstd::utf8::encode_utf8_decode_utf8(s);
    }
}

/// Tag selection: the UTF-8 byte length alone picks the string tag, and the
/// empty string goes out as the three-byte sentinel.
pub proof fn lemma_string_tag(big: bool, b: Seq<u8>)
    ensures
        b.len() == 0 ==> vstr_enc(big, b) == seq![1u8, 1u8, 88u8],
        1 <= b.len() < 128 ==> vstr_enc(big, b)[0] == 1,
        128 <= b.len() < 32768 ==> vstr_enc(big, b)[0] == 2,
        32768 <= b.len() < 0x8000_0000 ==> vstr_enc(big, b)[0] == 3,
        0x8000_0000 <= b.len() ==> vstr_enc(big, b)[0] == 4,
{
}

/// Round trip for booleans: the one-byte encoding reads back as the same
/// truth value.
pub proof fn lemma_bool_round_trip(big: bool, v: bool, pre: Seq<u8>, tail: Seq<u8>)
    ensures
        ({
            let dec = dec_word(big, pre + seq![byte_of_bool(v)] + tail, pre.len() as int, 1);
            dec matches Ok(vp) && (vp.0 == 1) == v && vp.1 == pre.len() + 1
        }),
{
    let s = pre + seq![byte_of_bool(v)] + tail;
    let p = pre.len() as int;
    assert(s.subrange(p, p + 1) =~= seq![byte_of_bool(v)]);
    assert(word_val(big, seq![byte_of_bool(v)]) == byte_of_bool(v)) by {
        assert(seq![byte_of_bool(v)].drop_last() =~= Seq::<u8>::empty());
        assert(seq![byte_of_bool(v)].subrange(1, 1) =~= Seq::<u8>::empty());
        assert(word_val_be(Seq::<u8>::empty()) == 0);
        assert(word_val_le(Seq::<u8>::empty()) == 0);
        assert(word_val_be(seq![byte_of_bool(v)]) == byte_of_bool(v));
        assert(word_val_le(seq![byte_of_bool(v)]) == byte_of_bool(v));
    }
}

/// Round trip for 16-bit words: the encoding of any signed 16-bit value
/// reads back as that value.
pub proof fn lemma_short_round_trip(big: bool, v: i16, pre: Seq<u8>, tail: Seq<u8>)
    ensures
        ({
            let dec = dec_word(big, pre + word_bytes(big, u16_of_i16(v), 2) + tail, pre.len() as int, 2);
            dec matches Ok(vp) && i16_of_u16(vp.0) == v as int && vp.1 == pre.len() + 2
        }),
{
    lemma_pow256_values();
    lemma_word_extract(big, u16_of_i16(v), 2, pre, tail);
}

/// Round trip for 32-bit words: the encoding of any signed 32-bit value
/// reads back as that value.
pub proof fn lemma_int_round_trip(big: bool, v: i32, pre: Seq<u8>, tail: Seq<u8>)
    ensures
        ({
            let dec = dec_word(big, pre + word_bytes(big, u32_of_i32(v), 4) + tail, pre.len() as int, 4);
            dec matches Ok(vp) && i32_of_u32(vp.0) == v as int && vp.1 == pre.len() + 4
        }),
{
    lemma_pow256_values();
    lemma_word_extract(big, u32_of_i32(v), 4, pre, tail);
}

/// Round trip for 64-bit words: the encoding of any signed 64-bit value
/// reads back as that value. Unsigned 64-bit fixed-point units ride the
/// same encoding and are covered by the word-level round trip directly.
pub proof fn lemma_long_round_trip(big: bool, v: i64, pre: Seq<u8>, tail: Seq<u8>)
    ensures
        ({
            let dec = dec_word(big, pre + word_bytes(big, u64_of_i64(v), 8) + tail, pre.len() as int, 8);
            dec matches Ok(vp) && i64_of_u64(vp.0) == v as int && vp.1 == pre.len() + 8
        }),
{
    lemma_pow256_values();
    lemma_word_extract(big, u64_of_i64(v), 8, pre, tail);
}

} // verus!
