//! Byte-level helpers: the reader over received bytes, VarInts, strings,
//! byte arrays and UUIDs as the Minecraft protocol encodes them.
use vstd::prelude::*;
use vstd::utf8::{decode_utf8, encode_utf8, valid_utf8};

verus! {

/// The failures that decoding protocol data can end in.
#[derive(Debug, Clone, Copy, PartialEq, Eq, Structural)]
pub enum IoError {
    /// The data ended before the value was complete.
    UnexpectedEof,
    /// A VarInt used more bytes than allowed.
    VarIntTooBig,
    /// A length-prefixed byte array is longer than allowed.
    ByteArrayTooBig,
    /// A length-prefixed string is longer than allowed.
    StringTooBig,
    /// String bytes are not valid UTF-8.
    InvalidUtf8,
    /// A value is not of the form the protocol asks for.
    InvalidData,
    /// A compressed stream is corrupt.
    InvalidInput,
}

/// A cursor over received bytes: what is left to read is `self@`.
pub struct ByteReader<'a> {
    data: &'a [u8],
    pos: usize,
}

impl<'a> ByteReader<'a> {
    #[verifier::type_invariant]
    spec fn inv(&self) -> bool {
        self.pos <= self.data@.len()
    }

    /// The bytes not read yet.
    pub closed spec fn rest(&self) -> Seq<u8> {
        self.data@.subrange(self.pos as int, self.data@.len() as int)
    }

    /// A reader over all of `data`.
    pub fn new(data: &'a [u8]) -> (r: Self)
        ensures
            r.rest() == data@,
    {
        let r = ByteReader { data, pos: 0 };
        assert(r.rest() =~= data@);
        r
    }

    /// The number of bytes not read yet.
    pub fn remaining(&self) -> (n: usize)
        ensures
            n == self.rest().len(),
    {
        proof { use_type_invariant(self); }
        self.data.len() - self.pos
    }

    /// The byte `i` places ahead, without reading it.
    pub fn peek_at(&self, i: usize) -> (r: Option<u8>)
        ensures
            i < self.rest().len() ==> r == Some(self.rest()[i as int]),
            i >= self.rest().len() ==> r is None,
    {
        proof { use_type_invariant(self); }
        if i < self.data.len() - self.pos {
            Some(self.data[self.pos + i])
        } else {
            None
        }
    }

    /// The bytes not read yet, as a slice of the data.
    pub fn rest_slice(&self) -> (r: &'a [u8])
        ensures
            r@ == self.rest(),
    {
        proof { use_type_invariant(self); }
        vstd::slice::slice_subrange(self.data, self.pos, self.data.len())
    }

    /// Reads one byte.
    pub fn read_u8(&mut self) -> (r: Result<u8, IoError>)
        ensures
            old(self).rest().len() == 0 ==> r == Err::<u8, IoError>(IoError::UnexpectedEof),
            old(self).rest().len() > 0 ==> r == Ok::<u8, IoError>(old(self).rest()[0])
                && final(self).rest() == old(self).rest().drop_first(),
    {
        proof { use_type_invariant(&*self); }
        if self.pos < self.data.len() {
            let b = self.data[self.pos];
            self.pos = self.pos + 1;
            proof {
                assert(final(self).rest() =~= old(self).rest().drop_first());
            }
            Ok(b)
        } else {
            Err(IoError::UnexpectedEof)
        }
    }

    /// Reads exactly `n` bytes.
    pub fn read_exact(&mut self, n: usize) -> (r: Result<Vec<u8>, IoError>)
        ensures
            old(self).rest().len() < n ==> r == Err::<Vec<u8>, IoError>(IoError::UnexpectedEof),
            old(self).rest().len() >= n ==> r.is_ok() && r.unwrap()@ == old(self).rest().take(
                n as int,
            ) && final(self).rest() == old(self).rest().skip(n as int),
    {
        proof { use_type_invariant(&*self); }
        if self.data.len() - self.pos < n {
            return Err(IoError::UnexpectedEof);
        }
        let mut out: Vec<u8> = Vec::with_capacity(n);
        let start = self.pos;
        let end = start + n;
        let mut i: usize = 0;
        while i < n
            invariant
                end == start + n,
                end <= self.data@.len(),
                i <= n,
                out@ =~= self.data@.subrange(start as int, start + i),
            decreases n - i,
        {
            out.push(self.data[start + i]);
            i = i + 1;
        }
        self.pos = end;
        proof {
            assert(out@ =~= old(self).rest().take(n as int));
            assert(final(self).rest() =~= old(self).rest().skip(n as int));
        }
        Ok(out)
    }

    /// Reads everything that is left.
    pub fn read_to_end(&mut self) -> (r: Vec<u8>)
        ensures
            r@ == old(self).rest(),
            final(self).rest().len() == 0,
    {
        proof { use_type_invariant(&*self); }
        let n = self.data.len() - self.pos;
        let r = self.read_exact(n);
        match r {
            Ok(v) => {
                proof { assert(old(self).rest().take(n as int) =~= old(self).rest()); }
                v
            },
            Err(_) => Vec::new(),
        }
    }
}

} // verus!

verus! {

// ---------------------------------------------------------------------------
// VarInt
// ---------------------------------------------------------------------------

/// The bits that byte number `i` of a VarInt contributes to the 32-bit value.
pub open spec fn varint_part(b: u8, i: nat) -> u32 {
    if i < 5 {
        ((b & 0x7f) as u32) << ((7 * i) as u32)
    } else {
        0
    }
}

/// Decoding a VarInt from `s` starting at byte `i` with `acc` gathered so far:
/// the value and the number of bytes used, or why decoding fails.
pub open spec fn varint_decode_from(s: Seq<u8>, i: nat, max: nat, acc: u32) -> Result<(u32, nat), IoError>
    decreases max - i,
{
    if i >= s.len() {
        Err(IoError::UnexpectedEof)
    } else {
        let acc2 = acc | varint_part(s[i as int], i);
        if i + 1 > max || i >= 5 {
            Err(IoError::VarIntTooBig)
        } else if s[i as int] & 0x80 == 0 {
            Ok((acc2, i + 1))
        } else {
            varint_decode_from(s, i + 1, max, acc2)
        }
    }
}

/// A successful decode uses at least one byte and no more than there are.
proof fn lemma_varint_decode_from_len(s: Seq<u8>, i: nat, max: nat, acc: u32)
    ensures
        varint_decode_from(s, i, max, acc) matches Ok((v, n)) ==> i < n <= s.len(),
    decreases max - i,
{
    if i < s.len() && i + 1 <= max && i < 5 && s[i as int] & 0x80 != 0 {
        lemma_varint_decode_from_len(s, i + 1, max, acc | varint_part(s[i as int], i));
    }
}

/// A successful decode uses at least one byte and no more than there are.
pub proof fn lemma_varint_decode_len(s: Seq<u8>, max: nat)
    ensures
        varint_decode(s, max) matches Ok((v, n)) ==> 0 < n <= s.len(),
{
    lemma_varint_decode_from_len(s, 0, max, 0);
}

/// Decoding a VarInt of at most `max` bytes from the start of `s`.
pub open spec fn varint_decode(s: Seq<u8>, max: nat) -> Result<(u32, nat), IoError> {
    varint_decode_from(s, 0, max, 0)
}

/// The number of bytes in the encoding of `v`.
pub open spec fn varint_len(v: u32) -> nat {
    if v < 0x80 {
        1
    } else if v < 0x4000 {
        2
    } else if v < 0x20_0000 {
        3
    } else if v < 0x1000_0000 {
        4
    } else {
        5
    }
}

/// Byte number `j` of the encoding of `v` when the encoding has `len` bytes.
pub open spec fn varint_byte(v: u32, j: nat, len: nat) -> u8 {
    let low = ((v >> ((7 * j) as u32)) & 0x7f) as u8;
    if j + 1 < len {
        low | 0x80
    } else {
        low
    }
}

/// The encoding of `v`: seven bits per byte, lowest first, high bit set on
/// every byte but the last.
pub open spec fn varint_bytes(v: u32) -> Seq<u8> {
    Seq::new(varint_len(v), |j: int| varint_byte(v, j as nat, varint_len(v)))
}

/// One step of the encoder, at byte `b` of `v`.
proof fn lemma_varint_encode_step(v: u32, b: u32)
    requires
        b < varint_len(v),
    ensures
        ((v >> (7 * b)) >> 7u32 != 0) == (b + 1 < varint_len(v)),
        b + 1 < varint_len(v) ==> (v >> (7 * b)) >> 7u32 == v >> (7 * (b + 1)),
        (((v >> (7 * b)) & 0x7f) as u8) == (((v >> (7 * b)) & 0x7f) as u8),
{
    if b == 0 {
        assert(((v >> 0u32) >> 7u32 != 0) == (v >= 0x80) && (v >> 0u32) >> 7u32 == v >> 7u32) by (bit_vector);
    } else if b == 1 {
        assert(((v >> 7u32) >> 7u32 != 0) == (v >= 0x4000) && (v >> 7u32) >> 7u32 == v >> 14u32) by (bit_vector);
    } else if b == 2 {
        assert(((v >> 14u32) >> 7u32 != 0) == (v >= 0x20_0000) && (v >> 14u32) >> 7u32 == v >> 21u32) by (bit_vector);
    } else if b == 3 {
        assert(((v >> 21u32) >> 7u32 != 0) == (v >= 0x1000_0000) && (v >> 21u32) >> 7u32 == v >> 28u32) by (bit_vector);
    } else {
        assert((v >> 28u32) >> 7u32 == 0) by (bit_vector);
    }
}

/// Decoding the encoding of `v` (followed by anything) gives `v` back and
/// uses exactly the encoded bytes.
proof fn lemma_varint_decode_bytes(v: u32, rest: Seq<u8>, max: nat)
    requires
        varint_len(v) <= max,
    ensures
        varint_decode(varint_bytes(v) + rest, max) == Ok::<(u32, nat), IoError>((v, varint_len(v))),
{
    let s = varint_bytes(v) + rest;
    let len = varint_len(v);
    reveal_with_fuel(varint_decode_from, 6);
    assert(s[0] == varint_byte(v, 0, len));
    if len == 1 {
        assert(v < 0x80 ==> (0u32 | ((((v >> 0u32) & 0x7f) as u8 & 0x7f) as u32) << 0u32) == v
            && (((v >> 0u32) & 0x7f) as u8) & 0x80 == 0) by (bit_vector);
    } else if len == 2 {
        assert(s[1] == varint_byte(v, 1, len));
        assert(0x80 <= v < 0x4000 ==> {
            let b0 = (((v >> 0u32) & 0x7f) as u8) | 0x80u8;
            let b1 = ((v >> 7u32) & 0x7f) as u8;
            &&& b0 & 0x80 != 0
            &&& b1 & 0x80 == 0
            &&& ((0u32 | (((b0 & 0x7f) as u32) << 0u32)) | (((b1 & 0x7f) as u32) << 7u32)) == v
        }) by (bit_vector);
    } else if len == 3 {
        assert(s[1] == varint_byte(v, 1, len));
        assert(s[2] == varint_byte(v, 2, len));
        assert(0x4000 <= v < 0x20_0000 ==> {
            let b0 = (((v >> 0u32) & 0x7f) as u8) | 0x80u8;
            let b1 = (((v >> 7u32) & 0x7f) as u8) | 0x80u8;
            let b2 = ((v >> 14u32) & 0x7f) as u8;
            &&& b0 & 0x80 != 0
            &&& b1 & 0x80 != 0
            &&& b2 & 0x80 == 0
            &&& (((0u32 | (((b0 & 0x7f) as u32) << 0u32)) | (((b1 & 0x7f) as u32) << 7u32))
                | (((b2 & 0x7f) as u32) << 14u32)) == v
        }) by (bit_vector);
    } else if len == 4 {
        assert(s[1] == varint_byte(v, 1, len));
        assert(s[2] == varint_byte(v, 2, len));
        assert(s[3] == varint_byte(v, 3, len));
        assert(0x20_0000 <= v < 0x1000_0000 ==> {
            let b0 = (((v >> 0u32) & 0x7f) as u8) | 0x80u8;
            let b1 = (((v >> 7u32) & 0x7f) as u8) | 0x80u8;
            let b2 = (((v >> 14u32) & 0x7f) as u8) | 0x80u8;
            let b3 = ((v >> 21u32) & 0x7f) as u8;
            &&& b0 & 0x80 != 0
            &&& b1 & 0x80 != 0
            &&& b2 & 0x80 != 0
            &&& b3 & 0x80 == 0
            &&& ((((0u32 | (((b0 & 0x7f) as u32) << 0u32)) | (((b1 & 0x7f) as u32) << 7u32))
                | (((b2 & 0x7f) as u32) << 14u32)) | (((b3 & 0x7f) as u32) << 21u32)) == v
        }) by (bit_vector);
    } else {
        assert(s[1] == varint_byte(v, 1, len));
        assert(s[2] == varint_byte(v, 2, len));
        assert(s[3] == varint_byte(v, 3, len));
        assert(s[4] == varint_byte(v, 4, len));
        assert(0x1000_0000 <= v ==> {
            let b0 = (((v >> 0u32) & 0x7f) as u8) | 0x80u8;
            let b1 = (((v >> 7u32) & 0x7f) as u8) | 0x80u8;
            let b2 = (((v >> 14u32) & 0x7f) as u8) | 0x80u8;
            let b3 = (((v >> 21u32) & 0x7f) as u8) | 0x80u8;
            let b4 = ((v >> 28u32) & 0x7f) as u8;
            &&& b0 & 0x80 != 0
            &&& b1 & 0x80 != 0
            &&& b2 & 0x80 != 0
            &&& b3 & 0x80 != 0
            &&& b4 & 0x80 == 0
            &&& (((((0u32 | (((b0 & 0x7f) as u32) << 0u32)) | (((b1 & 0x7f) as u32) << 7u32))
                | (((b2 & 0x7f) as u32) << 14u32)) | (((b3 & 0x7f) as u32) << 21u32))
                | (((b4 & 0x7f) as u32) << 28u32)) == v
        }) by (bit_vector);
    }
}

/// A Minecraft VarInt: a 32-bit integer written in one to five bytes.
#[derive(Debug, Clone, Copy, PartialEq, Eq, Structural)]
pub struct VarInt(pub i32);

impl VarInt {
    /// The value.
    pub fn get(&self) -> (r: i32)
        ensures
            r == self.0,
    {
        self.0
    }

    /// Reads a VarInt of at most `max_bytes` bytes; a sixth byte is never
    /// taken into the value, and reading one fails whatever the limit.
    pub fn decode(src: &mut ByteReader, max_bytes: u32) -> (r: Result<VarInt, IoError>)
        ensures
            match varint_decode(old(src).rest(), max_bytes as nat) {
                Ok((v, n)) => r == Ok::<VarInt, IoError>(VarInt(v as i32)) && final(src).rest()
                    == old(src).rest().skip(n as int),
                Err(e) => r == Err::<VarInt, IoError>(e),
            },
    {
        let ghost s0 = src.rest();
        let mut out: u32 = 0;
        let mut bytes: u32 = 0;
        proof { assert(s0.skip(0) =~= s0); }
        loop
            invariant
                s0 == old(src).rest(),
                bytes <= 5,
                bytes <= max_bytes,
                src.rest() == s0.skip(bytes as int),
                bytes <= s0.len(),
                varint_decode(s0, max_bytes as nat) == varint_decode_from(s0, bytes as nat, max_bytes as nat, out),
            decreases max_bytes - bytes,
        {
            let ghost before = src.rest();
            let b = match src.read_u8() {
                Ok(b) => b,
                Err(e) => {
                    proof { assert(bytes >= s0.len()); }
                    return Err(e);
                },
            };
            proof {
                assert(b == s0[bytes as int]);
                assert(src.rest() =~= s0.skip(bytes + 1));
            }
            if bytes < 5 {
                out = out | (((b & 0x7f) as u32) << (7 * bytes));
            }
            bytes = bytes + 1;
            if bytes > max_bytes || bytes > 5 {
                return Err(IoError::VarIntTooBig);
            }
            if (b & 0x80) != 0x80 {
                proof {
                    assert(b & 0x80 != 0x80 ==> b & 0x80 == 0) by (bit_vector);
                }
                return Ok(VarInt(out as i32));
            }
            proof {
                assert(b & 0x80 == 0x80 ==> b & 0x80 != 0) by (bit_vector);
            }
        }
    }

    /// Reads a VarInt of at most five bytes.
    pub fn decode_simple(src: &mut ByteReader) -> (r: Result<VarInt, IoError>)
        ensures
            match varint_decode(old(src).rest(), 5) {
                Ok((v, n)) => r == Ok::<VarInt, IoError>(VarInt(v as i32)) && final(src).rest()
                    == old(src).rest().skip(n as int),
                Err(e) => r == Err::<VarInt, IoError>(e),
            },
    {
        Self::decode(src, 5)
    }

    /// Writes the VarInt to `dest`; fails, after writing `max_bytes + 1`
    /// bytes, when the encoding is longer than `max_bytes`.
    pub fn encode(&self, dest: &mut Vec<u8>, max_bytes: u32) -> (r: Result<usize, IoError>)
        ensures
            varint_len(self.0 as u32) <= max_bytes ==> r == Ok::<usize, IoError>(
                varint_len(self.0 as u32) as usize,
            ) && final(dest)@ == old(dest)@ + varint_bytes(self.0 as u32),
            varint_len(self.0 as u32) > max_bytes ==> r == Err::<usize, IoError>(
                IoError::VarIntTooBig,
            ) && final(dest)@ == old(dest)@ + varint_bytes(self.0 as u32).take(max_bytes + 1),
    {
        let v = self.0 as u32;
        let ghost len = varint_len(v);
        let ghost enc = varint_bytes(v);
        let max = max_bytes as usize;
        let mut value: u32 = v;
        let mut bytes: usize = 0;
        proof { assert(enc.take(0) =~= Seq::<u8>::empty()); assert(v >> 0u32 == v) by (bit_vector); }
        loop
            invariant
                v == self.0 as u32,
                len == varint_len(v),
                enc == varint_bytes(v),
                max == max_bytes as usize,
                bytes < len,
                bytes <= max,
                value == v >> ((7 * bytes) as u32),
                dest@ == old(dest)@ + enc.take(bytes as int),
            decreases 5 - bytes,
        {
            proof { lemma_varint_encode_step(v, bytes as u32); }
            let ghost old_value = value;
            let mut part = value & 0x7f;
            value = value >> 7;
            if value != 0 {
                part = part | 0x80;
            }
            proof {
                assert(((old_value & 0x7f) | 0x80) as u8 == (((old_value & 0x7f) as u8) | 0x80u8)) by (bit_vector);
            }
            dest.push(part as u8);
            proof {
                assert(part as u8 == varint_byte(v, bytes as nat, len));
                assert(dest@ =~= old(dest)@ + enc.take(bytes + 1));
            }
            bytes = bytes + 1;
            if bytes > max {
                return Err(IoError::VarIntTooBig);
            }
            if value == 0 {
                proof { assert(enc.take(bytes as int) =~= enc); }
                return Ok(bytes);
            }
        }
    }

    /// Writes the VarInt with the five-byte limit, which every value meets.
    pub fn encode_simple(&self, dest: &mut Vec<u8>) -> (r: Result<usize, IoError>)
        ensures
            r == Ok::<usize, IoError>(varint_len(self.0 as u32) as usize),
            final(dest)@ == old(dest)@ + varint_bytes(self.0 as u32),
    {
        self.encode(dest, 5)
    }

    /// The number of bytes the encoding of `v` takes.
    pub fn get_size(v: i32) -> (r: usize)
        ensures
            r == varint_len(v as u32),
    {
        let v = v as u32;
        if (v & 0xFFFFFF80) == 0 {
            proof { assert((v & 0xFFFFFF80 == 0) == (v < 0x80)) by (bit_vector); }
            return 1;
        }
        if (v & 0xFFFFC000) == 0 {
            proof { assert((v & 0xFFFFFF80 != 0) ==> (v & 0xFFFFC000 == 0) == (0x80 <= v < 0x4000)) by (bit_vector); }
            return 2;
        }
        if (v & 0xFFE00000) == 0 {
            proof { assert((v & 0xFFFFC000 != 0) ==> (v & 0xFFE00000 == 0) == (0x4000 <= v < 0x20_0000)) by (bit_vector); }
            return 3;
        }
        if (v & 0xF0000000) == 0 {
            proof { assert((v & 0xFFE00000 != 0) ==> (v & 0xF0000000 == 0) == (0x20_0000 <= v < 0x1000_0000)) by (bit_vector); }
            return 4;
        }
        proof { assert((v & 0xF0000000 != 0) ==> 0x1000_0000 <= v) by (bit_vector); }
        5
    }
}

/// Law: what `VarInt::encode` writes, `VarInt::decode` reads back, for every
/// value, whatever follows it, whenever the limit admits the encoding.
pub proof fn law_varint_roundtrip(v: i32, rest: Seq<u8>, max_bytes: u32)
    requires
        varint_len(v as u32) <= max_bytes,
    ensures
        varint_decode(varint_bytes(v as u32) + rest, max_bytes as nat) == Ok::<(u32, nat), IoError>(
            (v as u32, varint_len(v as u32)),
        ),
        (v as u32) as i32 == v,
{
    lemma_varint_decode_bytes(v as u32, rest, max_bytes as nat);
    assert((v as u32) as i32 == v) by (bit_vector);
}

/// Law: `VarInt::get_size` is the number of bytes `VarInt::encode` writes.
pub proof fn law_varint_size(v: i32)
    ensures
        varint_bytes(v as u32).len() == varint_len(v as u32),
        1 <= varint_len(v as u32) <= 5,
{
}

} // verus!

verus! {

// ---------------------------------------------------------------------------
// Strings, byte arrays, UUIDs
// ---------------------------------------------------------------------------

/// Reading a length-prefixed byte array of at most `max` bytes from the
/// start of `s`: the bytes and how much of `s` they took.
pub open spec fn byte_array_decode(s: Seq<u8>, max: nat) -> Result<(Seq<u8>, nat), IoError> {
    match varint_decode(s, 5) {
        Err(e) => Err(e),
        Ok((v, n)) => {
            let len = (v as i32) as usize;
            if len > max {
                Err(IoError::ByteArrayTooBig)
            } else if n + len > s.len() {
                Err(IoError::UnexpectedEof)
            } else {
                Ok((s.subrange(n as int, n + len), (n + len) as nat))
            }
        },
    }
}

/// Reading a length-prefixed UTF-8 string of at most `max_chars` characters
/// (that is, at most three times as many bytes) from the start of `s`.
pub open spec fn string_decode(s: Seq<u8>, max_chars: nat) -> Result<(Seq<char>, nat), IoError> {
    match varint_decode(s, 5) {
        Err(e) => Err(e),
        Ok((v, n)) => {
            let len = (v as i32) as usize;
            if len > max_chars * 3 {
                Err(IoError::StringTooBig)
            } else if n + len > s.len() {
                Err(IoError::UnexpectedEof)
            } else if !valid_utf8(s.subrange(n as int, n + len)) {
                Err(IoError::InvalidUtf8)
            } else {
                Ok((decode_utf8(s.subrange(n as int, n + len)), (n + len) as nat))
            }
        },
    }
}

/// The encoding of a byte array: its length as a VarInt, then the bytes.
pub open spec fn byte_array_bytes(data: Seq<u8>) -> Seq<u8> {
    varint_bytes((data.len() as i32) as u32) + data
}

/// The encoding of a string: its UTF-8 length as a VarInt, then its UTF-8 bytes.
pub open spec fn string_bytes(s: Seq<char>) -> Seq<u8> {
    byte_array_bytes(encode_utf8(s))
}

/// A character allowed in a player name.
pub open spec fn is_name_char(c: char) -> bool {
    ('a' <= c <= 'z') || ('A' <= c <= 'Z') || ('0' <= c <= '9') || c == '_'
}

/// Calls `String::push_str`, which appends the characters of `s`.
#[verifier::external_body]
pub(crate) fn push_str(dest: &mut String, s: &str)
    ensures
        final(dest)@ == old(dest)@ + s@,
{
    dest.push_str(s);
}

/// Calls `String::push`, which appends the character `c`.
#[verifier::external_body]
pub(crate) fn push_char(dest: &mut String, c: char)
    ensures
        final(dest)@ == old(dest)@.push(c),
{
    dest.push(c);
}

/// What `String::from_utf8_lossy` makes of some bytes: their text, with
/// each malformed sequence replaced by U+FFFD.
pub uninterp spec fn lossy_text(b: Seq<u8>) -> Seq<char>;

/// Calls `String::from_utf8_lossy`; on valid UTF-8 its result is the text
/// the bytes encode (the standard library documents that it does not
/// change valid input).
#[verifier::external_body]
pub(crate) fn utf8_lossy(bytes: &[u8]) -> (r: String)
    ensures
        r@ == lossy_text(bytes@),
        valid_utf8(bytes@) ==> r@ == decode_utf8(bytes@),
{
    String::from_utf8_lossy(bytes).into_owned()
}

/// `String::from_utf8`, which fails exactly on byte sequences that are not
/// UTF-8 and otherwise holds the characters those bytes encode.
#[verifier::external_body]
fn string_from_utf8(bytes: Vec<u8>) -> (r: Option<String>)
    ensures
        r is Some == valid_utf8(bytes@),
        r matches Some(s) ==> s@ == decode_utf8(bytes@),
{
    String::from_utf8(bytes).ok()
}

/// Whether `username` is a valid player name: one to sixteen ASCII letters,
/// digits or underscores.
pub fn is_username_valid(username: &str) -> (r: bool)
    ensures
        r == (0 < username@.len() <= 16 && forall|i: int|
            0 <= i < username@.len() ==> is_name_char(#[trigger] username@[i])),
{
    broadcast use vstd::string::axiom_spec_iter;
    // All characters must be name characters; those are ASCII, so the
    // character count is the byte length.  The count stops at 17.
    let mut all = true;
    let mut count: usize = 0;
    for c in it: username.chars()
        invariant
            it.seq() == username@,
            all == forall|j: int| 0 <= j < it.index() ==> is_name_char(#[trigger] username@[j]),
            count == if it.index() < 17 { it.index() } else { 17 },
    {
        let ok = ('a' <= c && c <= 'z') || ('A' <= c && c <= 'Z') || ('0' <= c && c <= '9') || c == '_';
        if !ok {
            all = false;
        }
        if count < 17 {
            count = count + 1;
        }
    }
    assert(all == forall|j: int| 0 <= j < username@.len() ==> is_name_char(#[trigger] username@[j]));
    all && count > 0 && count <= 16
}

/// Helpers that write and read the protocol's compound encodings.
pub struct EncodingHelper(());

impl EncodingHelper {
    /// Writes `data` with its length as a VarInt in front.
    pub fn write_byte_array(dest: &mut Vec<u8>, data: &[u8]) -> (r: Result<(), IoError>)
        ensures
            r is Ok,
            final(dest)@ == old(dest)@ + byte_array_bytes(data@),
    {
        let len = VarInt(data.len() as i32);
        let _ = len.encode(dest, 5);
        dest.extend_from_slice(data);
        proof { assert(final(dest)@ =~= old(dest)@ + byte_array_bytes(data@)); }
        Ok(())
    }

    /// Reads a length-prefixed byte array of at most `max_length` bytes.
    pub fn read_byte_array(src: &mut ByteReader, max_length: usize) -> (r: Result<Vec<u8>, IoError>)
        ensures
            match byte_array_decode(old(src).rest(), max_length as nat) {
                Ok((d, n)) => r is Ok && r.unwrap()@ == d && final(src).rest() == old(src).rest().skip(
                    n as int,
                ),
                Err(e) => r == Err::<Vec<u8>, IoError>(e),
            },
    {
        let ghost s0 = src.rest();
        let vi = VarInt::decode(src, 5)?;
        let ghost v = varint_decode(s0, 5).unwrap().0;
        let ghost n = varint_decode(s0, 5).unwrap().1;
        let len = vi.get() as usize;
        assert(len == (v as i32) as usize);
        if len > max_length {
            return Err(IoError::ByteArrayTooBig);
        }
        let ghost s1 = src.rest();
        proof { lemma_varint_decode_len(s0, 5); }
        assert(s1 == s0.skip(n as int));
        let data = src.read_exact(len)?;
        proof {
            assert(data@ =~= s0.subrange(n as int, n + len));
            assert(src.rest() =~= s0.skip(n + len));
        }
        Ok(data)
    }

    /// Writes a string as its UTF-8 length and bytes.
    pub fn write_string(dest: &mut Vec<u8>, data: &str) -> (r: Result<(), IoError>)
        ensures
            r is Ok,
            final(dest)@ == old(dest)@ + string_bytes(data@),
    {
        let bytes = data.as_bytes();
        let _ = VarInt(bytes.len() as i32).encode_simple(dest);
        dest.extend_from_slice(bytes);
        proof { assert(final(dest)@ =~= old(dest)@ + string_bytes(data@)); }
        Ok(())
    }

    /// Reads a length-prefixed UTF-8 string of at most `max_length` characters.
    pub fn read_string(src: &mut ByteReader, max_length: usize) -> (r: Result<String, IoError>)
        requires
            max_length <= usize::MAX / 3,
        ensures
            match string_decode(old(src).rest(), max_length as nat) {
                Ok((text, n)) => r is Ok && r.unwrap()@ == text && final(src).rest() == old(
                    src,
                ).rest().skip(n as int),
                Err(e) => r == Err::<String, IoError>(e),
            },
            // A length over the limit is refused with only the length read; a
            // body that is not UTF-8 is refused after the whole string is read.
            varint_decode(old(src).rest(), 5) matches Ok((v, n)) ==> {
                &&& r == Err::<String, IoError>(IoError::StringTooBig) ==> final(src).rest() == old(
                    src,
                ).rest().skip(n as int)
                &&& r == Err::<String, IoError>(IoError::InvalidUtf8) ==> final(src).rest() == old(
                    src,
                ).rest().skip(n + (v as i32) as usize)
            },
    {
        let ghost s0 = src.rest();
        let vi = VarInt::decode(src, 5)?;
        let ghost v = varint_decode(s0, 5).unwrap().0;
        let ghost n = varint_decode(s0, 5).unwrap().1;
        let len = vi.get() as usize;
        assert(len == (v as i32) as usize);
        if len > max_length * 3 {
            return Err(IoError::StringTooBig);
        }
        let ghost s1 = src.rest();
        proof { lemma_varint_decode_len(s0, 5); }
        assert(s1 == s0.skip(n as int));
        let data = src.read_exact(len)?;
        proof {
            assert(data@ =~= s0.subrange(n as int, n + len));
            assert(src.rest() =~= s0.skip(n + len));
        }
        match string_from_utf8(data) {
            Some(s) => Ok(s),
            None => Err(IoError::InvalidUtf8),
        }
    }

    /// A zero-filled buffer of `len` bytes to read into.
    pub fn need_read_uninit_vec(len: usize) -> (r: Vec<u8>)
        ensures
            r@ == Seq::new(len as nat, |i: int| 0u8),
    {
        let mut v: Vec<u8> = Vec::with_capacity(len);
        let mut i: usize = 0;
        while i < len
            invariant
                i <= len,
                v@ == Seq::new(i as nat, |j: int| 0u8),
            decreases len - i,
        {
            v.push(0);
            i = i + 1;
            proof { assert(v@ =~= Seq::new(i as nat, |j: int| 0u8)); }
        }
        v
    }
}

/// Law: `read_byte_array` gives back what `write_byte_array` wrote, whatever
/// follows it, when the array is within the limit (and its length fits the
/// VarInt, which holds every `i32` length).
pub proof fn law_byte_array_roundtrip(data: Seq<u8>, rest: Seq<u8>, max: nat)
    requires
        data.len() <= max,
        data.len() <= i32::MAX,
    ensures
        byte_array_decode(byte_array_bytes(data) + rest, max) == Ok::<(Seq<u8>, nat), IoError>(
            (data, varint_len(data.len() as u32) + data.len()),
        ),
{
    let v = (data.len() as i32) as u32;
    let s = byte_array_bytes(data) + rest;
    assert(s =~= varint_bytes(v) + (data + rest));
    lemma_varint_decode_bytes(v, data + rest, 5);
    assert(v == data.len());
    assert((v as i32) as usize == data.len());
    let n = varint_len(v);
    assert(s.subrange(n as int, n + data.len() as int) =~= data);
}

/// A string's UTF-8 form has at most four bytes per character.
pub proof fn lemma_encode_utf8_len(t: Seq<char>)
    ensures
        encode_utf8(t).len() <= 4 * t.len(),
    decreases t.len(),
{
    if t.len() > 0 {
        lemma_encode_utf8_len(t.drop_first());
    }
}

/// Law: `read_string` gives back what `write_string` wrote, whatever follows
/// it, when the string's UTF-8 form is within the limit.
pub proof fn law_string_roundtrip(text: Seq<char>, rest: Seq<u8>, max_chars: nat)
    requires
        encode_utf8(text).len() <= max_chars * 3,
        encode_utf8(text).len() <= i32::MAX,
    ensures
        string_decode(string_bytes(text) + rest, max_chars) == Ok::<(Seq<char>, nat), IoError>(
            (text, varint_len(encode_utf8(text).len() as u32) + encode_utf8(text).len()),
        ),
{
    let data = encode_utf8(text);
    let v = (data.len() as i32) as u32;
    let s = string_bytes(text) + rest;
    assert(s =~= varint_bytes(v) + (data + rest));
    lemma_varint_decode_bytes(v, data + rest, 5);
    assert(v == data.len());
    assert((v as i32) as usize == data.len());
    let n = varint_len(v);
    assert(s.subrange(n as int, n + data.len() as int) =~= data);
    vstd::utf8::encode_utf8_valid_utf8(text);
    vstd::utf8::encode_utf8_decode_utf8(text);
}

} // verus!

verus! {

/// A UUID as its sixteen bytes, most significant first.
#[derive(Debug, Clone, Copy, PartialEq, Eq)]
pub struct Uuid {
    pub bytes: [u8; 16],
}

/// The lowercase hexadecimal digit for `n < 16`.
pub open spec fn hex_digit(n: u8) -> char {
    if n < 10 {
        (48 + n) as char
    } else {
        (87 + n) as char
    }
}

/// The 32 lowercase hexadecimal digits of sixteen bytes.
pub open spec fn hex_simple(b: Seq<u8>) -> Seq<char> {
    Seq::new(32, |i: int| if i % 2 == 0 { hex_digit(b[i / 2] >> 4) } else { hex_digit(b[i / 2] & 0xf) })
}

/// The hyphenated form `xxxxxxxx-xxxx-xxxx-xxxx-xxxxxxxxxxxx` of a UUID.
pub open spec fn uuid_text(b: Seq<u8>) -> Seq<char> {
    let h = hex_simple(b);
    h.subrange(0, 8) + seq!['-'] + h.subrange(8, 12) + seq!['-'] + h.subrange(12, 16) + seq!['-']
        + h.subrange(16, 20) + seq!['-'] + h.subrange(20, 32)
}

/// What `uuid::Uuid::parse_str` makes of a text: the bytes of the UUID it
/// reads, or `None` where it refuses the text.
pub uninterp spec fn uuid_parse_result(s: Seq<char>) -> Option<Seq<u8>>;

/// The MD5 digest of some bytes, as `md5::compute` returns it.
pub uninterp spec fn md5_digest(data: Seq<u8>) -> Seq<u8>;

/// The bytes of a name-based (version 3) UUID made from an MD5 digest: the
/// version nibble of byte 6 set to 3 and the RFC 4122 variant in byte 8.
pub open spec fn md5_uuid_bytes(d: Seq<u8>) -> Seq<u8> {
    d.update(6, (d[6] & 0x0f) | 0x30).update(8, (d[8] & 0x3f) | 0x80)
}

/// Calls `md5::compute`: the digest of `data`, sixteen bytes.
#[verifier::external_body]
fn md5_compute(data: &[u8]) -> (r: [u8; 16])
    ensures
        r@ == md5_digest(data@),
{
    md5::compute(data).0
}

/// Calls `uuid::Builder::from_md5_bytes`, which (in the uuid source) sets
/// the version nibble of byte 6 to 3 and the top bits of byte 8 to `10`.
#[verifier::external_body]
fn uuid_from_md5(digest: [u8; 16]) -> (r: Uuid)
    ensures
        r.bytes@ == md5_uuid_bytes(digest@),
{
    Uuid { bytes: *uuid::Builder::from_md5_bytes(digest).into_uuid().as_bytes() }
}

/// Calls the `Display` of `uuid::Uuid`, which writes the lowercase
/// hyphenated form.
#[verifier::external_body]
fn uuid_to_string(bytes: [u8; 16]) -> (r: String)
    ensures
        r@ == uuid_text(bytes@),
{
    uuid::Uuid::from_bytes(bytes).to_string()
}

/// Calls `uuid::Uuid::parse_str`.
#[verifier::external_body]
fn uuid_parse_str(s: &str) -> (r: Option<Uuid>)
    ensures
        r matches Some(u) ==> uuid_parse_result(s@) == Some(u.bytes@),
        r is None ==> uuid_parse_result(s@) is None,
{
    uuid::Uuid::parse_str(s).ok().map(|u| Uuid { bytes: *u.as_bytes() })
}

impl Uuid {
    /// The UUID with these bytes.
    pub fn from_bytes(bytes: [u8; 16]) -> (r: Uuid)
        ensures
            r.bytes == bytes,
    {
        Uuid { bytes }
    }

    /// The hyphenated lowercase form.
    pub fn to_hyphenated_string(&self) -> (r: String)
        ensures
            r@ == uuid_text(self.bytes@),
    {
        uuid_to_string(self.bytes)
    }

    /// Reads a UUID from text in any form the uuid crate accepts.
    pub fn parse_str(s: &str) -> (r: Option<Uuid>)
        ensures
            r matches Some(u) ==> uuid_parse_result(s@) == Some(u.bytes@),
            r is None ==> uuid_parse_result(s@) is None,
    {
        uuid_parse_str(s)
    }
}

/// The bytes of the text `OfflinePlayer:<name>`.
pub open spec fn offline_player_key(username: Seq<char>) -> Seq<u8> {
    encode_utf8(seq!['O', 'f', 'f', 'l', 'i', 'n', 'e', 'P', 'l', 'a', 'y', 'e', 'r', ':']) + encode_utf8(username)
}

/// The UUID an offline-mode player gets: the name-based UUID of
/// `OfflinePlayer:<name>`.
pub fn generate_uuid(username: &str) -> (r: Uuid)
    ensures
        r.bytes@ == md5_uuid_bytes(md5_digest(offline_player_key(username@))),
{
    let prefix = "OfflinePlayer:";
    proof { reveal_strlit("OfflinePlayer:"); }
    let mut key: Vec<u8> = Vec::new();
    key.extend_from_slice(prefix.as_bytes());
    key.extend_from_slice(username.as_bytes());
    proof {
        assert(prefix@ =~= seq!['O', 'f', 'f', 'l', 'i', 'n', 'e', 'P', 'l', 'a', 'y', 'e', 'r', ':']);
        assert(key@ =~= offline_player_key(username@));
    }
    let digest = md5_compute(key.as_slice());
    uuid_from_md5(digest)
}

impl EncodingHelper {
    /// Writes the sixteen bytes of a UUID.
    pub fn write_uuid(dest: &mut Vec<u8>, uuid: &Uuid) -> (r: Result<(), IoError>)
        ensures
            r is Ok,
            final(dest)@ == old(dest)@ + uuid.bytes@,
    {
        dest.extend_from_slice(uuid.bytes.as_slice());
        Ok(())
    }

    /// Reads the sixteen bytes of a UUID.
    pub fn read_uuid(src: &mut ByteReader) -> (r: Result<Uuid, IoError>)
        ensures
            old(src).rest().len() < 16 ==> r == Err::<Uuid, IoError>(IoError::UnexpectedEof),
            old(src).rest().len() >= 16 ==> r is Ok && r.unwrap().bytes@ == old(src).rest().take(16)
                && final(src).rest() == old(src).rest().skip(16),
    {
        let d = src.read_exact(16)?;
        let bytes: [u8; 16] = [
            d[0], d[1], d[2], d[3], d[4], d[5], d[6], d[7],
            d[8], d[9], d[10], d[11], d[12], d[13], d[14], d[15],
        ];
        proof { assert(bytes@ =~= d@); }
        Ok(Uuid { bytes })
    }
}

} // verus!

verus! {

// ---------------------------------------------------------------------------
// Fixed-width big-endian integers
// ---------------------------------------------------------------------------

/// The two bytes of `v`, most significant first.
pub open spec fn u16_be(v: u16) -> Seq<u8> {
    seq![(v >> 8u16) as u8, (v & 0xffu16) as u8]
}

/// The value of two bytes, most significant first.
pub open spec fn u16_of_be(b0: u8, b1: u8) -> u16 {
    ((b0 as u16) << 8u16) | (b1 as u16)
}

/// The four bytes of `v`, most significant first.
pub open spec fn u32_be(v: u32) -> Seq<u8> {
    seq![(v >> 24u32) as u8, ((v >> 16u32) & 0xffu32) as u8, ((v >> 8u32) & 0xffu32) as u8, (v & 0xffu32) as u8]
}

/// The value of four bytes, most significant first.
pub open spec fn u32_of_be(s: Seq<u8>) -> u32 {
    ((s[0] as u32) << 24u32) | ((s[1] as u32) << 16u32) | ((s[2] as u32) << 8u32) | (s[3] as u32)
}

/// The eight bytes of `v`, most significant first.
pub open spec fn u64_be(v: u64) -> Seq<u8> {
    seq![
        (v >> 56u64) as u8,
        ((v >> 48u64) & 0xffu64) as u8,
        ((v >> 40u64) & 0xffu64) as u8,
        ((v >> 32u64) & 0xffu64) as u8,
        ((v >> 24u64) & 0xffu64) as u8,
        ((v >> 16u64) & 0xffu64) as u8,
        ((v >> 8u64) & 0xffu64) as u8,
        (v & 0xffu64) as u8,
    ]
}

/// The value of eight bytes, most significant first.
pub open spec fn u64_of_be(s: Seq<u8>) -> u64 {
    ((s[0] as u64) << 56u64) | ((s[1] as u64) << 48u64) | ((s[2] as u64) << 40u64) | ((s[3] as u64) << 32u64)
        | ((s[4] as u64) << 24u64) | ((s[5] as u64) << 16u64) | ((s[6] as u64) << 8u64) | (s[7] as u64)
}

/// Reading two bytes back gives the value they were written from.
pub proof fn lemma_u16_be(v: u16)
    ensures
        u16_of_be(u16_be(v)[0], u16_be(v)[1]) == v,
{
    let b0 = (v >> 8u16) as u8;
    let b1 = (v & 0xffu16) as u8;
    assert(((b0 as u16) << 8u16) | (b1 as u16) == v) by (bit_vector)
        requires
            b0 == (v >> 8u16) as u8,
            b1 == (v & 0xffu16) as u8,
    ;
}

/// Reading eight bytes back gives the value they were written from.
pub proof fn lemma_u64_be(v: u64)
    ensures
        u64_of_be(u64_be(v)) == v,
{
    let s = u64_be(v);
    let (b0, b1, b2, b3, b4, b5, b6, b7) = (s[0], s[1], s[2], s[3], s[4], s[5], s[6], s[7]);
    assert(((b0 as u64) << 56u64) | ((b1 as u64) << 48u64) | ((b2 as u64) << 40u64) | ((b3 as u64) << 32u64)
        | ((b4 as u64) << 24u64) | ((b5 as u64) << 16u64) | ((b6 as u64) << 8u64) | (b7 as u64) == v) by (bit_vector)
        requires
            b0 == (v >> 56u64) as u8,
            b1 == ((v >> 48u64) & 0xffu64) as u8,
            b2 == ((v >> 40u64) & 0xffu64) as u8,
            b3 == ((v >> 32u64) & 0xffu64) as u8,
            b4 == ((v >> 24u64) & 0xffu64) as u8,
            b5 == ((v >> 16u64) & 0xffu64) as u8,
            b6 == ((v >> 8u64) & 0xffu64) as u8,
            b7 == (v & 0xffu64) as u8,
    ;
}

/// Reading four bytes back gives the value they were written from.
pub proof fn lemma_u32_be(v: u32)
    ensures
        u32_of_be(u32_be(v)) == v,
{
    let s = u32_be(v);
    let (b0, b1, b2, b3) = (s[0], s[1], s[2], s[3]);
    assert(((b0 as u32) << 24u32) | ((b1 as u32) << 16u32) | ((b2 as u32) << 8u32) | (b3 as u32) == v) by (bit_vector)
        requires
            b0 == (v >> 24u32) as u8,
            b1 == ((v >> 16u32) & 0xffu32) as u8,
            b2 == ((v >> 8u32) & 0xffu32) as u8,
            b3 == (v & 0xffu32) as u8,
    ;
}

/// An `i64` read back through its `u64` bits is the same value.
pub proof fn lemma_i64_bits(v: i64)
    ensures
        ((v as u64) as i64) == v,
{
    assert(((v as u64) as i64) == v) by (bit_vector);
}

impl<'a> ByteReader<'a> {
    /// Reads a big-endian `u16`.
    pub fn read_u16_be(&mut self) -> (r: Result<u16, IoError>)
        ensures
            old(self).rest().len() < 2 ==> r == Err::<u16, IoError>(IoError::UnexpectedEof),
            old(self).rest().len() >= 2 ==> r == Ok::<u16, IoError>(u16_of_be(old(self).rest()[0], old(self).rest()[1]))
                && final(self).rest() == old(self).rest().skip(2),
    {
        let d = self.read_exact(2)?;
        Ok(((d[0] as u16) << 8u16) | (d[1] as u16))
    }

    /// Reads a big-endian `u32`.
    pub fn read_u32_be(&mut self) -> (r: Result<u32, IoError>)
        ensures
            old(self).rest().len() < 4 ==> r == Err::<u32, IoError>(IoError::UnexpectedEof),
            old(self).rest().len() >= 4 ==> r == Ok::<u32, IoError>(u32_of_be(old(self).rest().take(4)))
                && final(self).rest() == old(self).rest().skip(4),
    {
        let d = self.read_exact(4)?;
        Ok(((d[0] as u32) << 24u32) | ((d[1] as u32) << 16u32) | ((d[2] as u32) << 8u32) | (d[3] as u32))
    }

    /// Reads a big-endian `u64`.
    pub fn read_u64_be(&mut self) -> (r: Result<u64, IoError>)
        ensures
            old(self).rest().len() < 8 ==> r == Err::<u64, IoError>(IoError::UnexpectedEof),
            old(self).rest().len() >= 8 ==> r == Ok::<u64, IoError>(u64_of_be(old(self).rest().take(8)))
                && final(self).rest() == old(self).rest().skip(8),
    {
        let d = self.read_exact(8)?;
        Ok(((d[0] as u64) << 56u64) | ((d[1] as u64) << 48u64) | ((d[2] as u64) << 40u64) | ((d[3] as u64) << 32u64)
            | ((d[4] as u64) << 24u64) | ((d[5] as u64) << 16u64) | ((d[6] as u64) << 8u64) | (d[7] as u64))
    }

    /// Reads a big-endian `i64`.
    pub fn read_i64_be(&mut self) -> (r: Result<i64, IoError>)
        ensures
            old(self).rest().len() < 8 ==> r == Err::<i64, IoError>(IoError::UnexpectedEof),
            old(self).rest().len() >= 8 ==> r == Ok::<i64, IoError>(u64_of_be(old(self).rest().take(8)) as i64)
                && final(self).rest() == old(self).rest().skip(8),
    {
        let v = self.read_u64_be()?;
        Ok(v as i64)
    }
}

/// Writes a big-endian `u16`.
pub fn write_u16_be(dest: &mut Vec<u8>, v: u16)
    ensures
        final(dest)@ == old(dest)@ + u16_be(v),
{
    dest.push((v >> 8u16) as u8);
    dest.push((v & 0xffu16) as u8);
    proof { assert(final(dest)@ =~= old(dest)@ + u16_be(v)); }
}

/// Writes one byte.
pub fn write_u8(dest: &mut Vec<u8>, b: u8)
    ensures
        final(dest)@ == old(dest)@ + seq![b],
{
    dest.push(b);
    proof { assert(final(dest)@ =~= old(dest)@ + seq![b]); }
}

/// Writes a big-endian `u32`.
pub fn write_u32_be(dest: &mut Vec<u8>, v: u32)
    ensures
        final(dest)@ == old(dest)@ + u32_be(v),
{
    dest.push((v >> 24u32) as u8);
    dest.push(((v >> 16u32) & 0xffu32) as u8);
    dest.push(((v >> 8u32) & 0xffu32) as u8);
    dest.push((v & 0xffu32) as u8);
    proof { assert(final(dest)@ =~= old(dest)@ + u32_be(v)); }
}

/// Writes a big-endian `u64`.
pub fn write_u64_be(dest: &mut Vec<u8>, v: u64)
    ensures
        final(dest)@ == old(dest)@ + u64_be(v),
{
    dest.push((v >> 56u64) as u8);
    dest.push(((v >> 48u64) & 0xffu64) as u8);
    dest.push(((v >> 40u64) & 0xffu64) as u8);
    dest.push(((v >> 32u64) & 0xffu64) as u8);
    dest.push(((v >> 24u64) & 0xffu64) as u8);
    dest.push(((v >> 16u64) & 0xffu64) as u8);
    dest.push(((v >> 8u64) & 0xffu64) as u8);
    dest.push((v & 0xffu64) as u8);
    proof { assert(final(dest)@ =~= old(dest)@ + u64_be(v)); }
}

/// Writes a big-endian `i64`.
pub fn write_i64_be(dest: &mut Vec<u8>, v: i64)
    ensures
        final(dest)@ == old(dest)@ + u64_be(v as u64),
{
    write_u64_be(dest, v as u64);
}

} // verus!
