//! Packet compression: the frame of a compressed packet (its uncompressed
//! length, then the zlib stream, or a zero length and the raw bytes below
//! the threshold), and readers that stop at a size limit.
use vstd::prelude::*;

use flate2::read::ZlibDecoder;

use crate::util::{
    law_varint_roundtrip, lemma_varint_decode_len, varint_bytes, varint_decode, ByteReader, IoError, VarInt,
};

verus! {

/// The most bytes a compressed packet may inflate to.
pub const DECOMPRESSED_LIMIT: usize = 8388608;

/// How many bytes a limited reader asks for at a time.
pub const READ_CHUNK: usize = 8192;

#[verifier::external_type_specification]
#[verifier::external_body]
pub struct ExIoError(std::io::Error);

#[verifier::external_type_specification]
#[verifier::external_body]
#[verifier::reject_recursive_types(R)]
pub struct ExZlibDecoder<R>(ZlibDecoder<R>);

/// The zlib stream that `flate2`'s `ZlibEncoder` at the default level
/// writes for `data`.
pub uninterp spec fn zlib_compressed(data: Seq<u8>) -> Seq<u8>;

/// What inflating the zlib stream at the start of `data` gives: the bytes it
/// holds, or `None` when the stream is corrupt or ends early (bytes after
/// the stream's end play no part).
pub uninterp spec fn zlib_inflated(data: Seq<u8>) -> Option<Seq<u8>>;

/// The bytes a `ZlibDecoder` over received bytes still has to give, or
/// `None` when the rest of its stream is corrupt or ends early.
pub uninterp spec fn zlib_pending(dec: ZlibDecoder<&[u8]>) -> Option<Seq<u8>>;

/// Compresses `data` with `flate2::write::ZlibEncoder` at the default
/// level (its `write_all`, then `finish`).  The encoder writes into a `Vec`,
/// which never fails, so neither does this; the stream it gives is the one
/// `zlib_compressed` names, and inflating it gives `data` back.
#[verifier::external_body]
fn zlib_compress(data: &[u8]) -> (r: Result<Vec<u8>, std::io::Error>)
    ensures
        r is Ok,
        r is Ok ==> r.unwrap()@ == zlib_compressed(data@),
        r is Ok ==> zlib_inflated(r.unwrap()@) == Some(data@),
{
    let mut encoder = flate2::write::ZlibEncoder::new(Vec::new(), flate2::Compression::default());
    std::io::Write::write_all(&mut encoder, data)?;
    encoder.finish()
}

/// `flate2::read::ZlibDecoder::new` over the bytes of a zlib stream: what it
/// will give is what the stream inflates to.
#[verifier::external_body]
fn zlib_decoder<'a>(data: &'a [u8]) -> (r: ZlibDecoder<&'a [u8]>)
    ensures
        zlib_pending(r) == zlib_inflated(data@),
{
    ZlibDecoder::new(data)
}

/// Whether an error is one a zlib stream fails with: `InvalidInput` when
/// it is corrupt, `UnexpectedEof` when it ends early.
pub open spec fn zlib_error(e: IoError) -> bool {
    e == IoError::InvalidInput || e == IoError::UnexpectedEof
}

/// One `read` of a `ZlibDecoder` into a buffer of `max` bytes; the bytes it
/// gave.  `Read::read` gives at most as many bytes as the buffer holds.  In
/// `flate2`'s source (`zio::read`) a read into a nonempty buffer gives the
/// next bytes of the stream, at least one while any are left; it gives none
/// only at the stream's end, and fails when the stream is corrupt (with the
/// kind `InvalidInput`) or ends early (`UnexpectedEof`); the kind is passed
/// on.  Which bytes a corrupt stream gives before it fails, and which of the
/// two kinds a bad stream fails with, is not stated.
#[verifier::external_body]
fn zlib_read(dec: &mut ZlibDecoder<&[u8]>, max: usize) -> (r: Result<Vec<u8>, IoError>)
    ensures
        r matches Err(e) ==> zlib_error(e),
        r is Ok ==> r.unwrap()@.len() <= max,
        max > 0 ==> match zlib_pending(*old(dec)) {
            Some(p) => {
                &&& r is Ok
                &&& r.unwrap()@.len() <= p.len()
                &&& r.unwrap()@ == p.take(r.unwrap()@.len() as int)
                &&& p.len() > 0 ==> r.unwrap()@.len() > 0
                &&& zlib_pending(*final(dec)) == Some(p.skip(r.unwrap()@.len() as int))
            },
            None => r is Ok ==> r.unwrap()@.len() > 0 && zlib_pending(*final(dec)) is None,
        },
{
    let mut buf = vec![0u8; max];
    match std::io::Read::read(dec, &mut buf) {
        Ok(n) => {
            buf.truncate(n);
            Ok(buf)
        },
        Err(e) => Err(match e.kind() {
            std::io::ErrorKind::UnexpectedEof => IoError::UnexpectedEof,
            std::io::ErrorKind::InvalidInput => IoError::InvalidInput,
            _ => IoError::InvalidData,
        }),
    }
}

/// The smaller of two sizes.
pub open spec fn min_size(a: nat, b: nat) -> nat {
    if a <= b {
        a
    } else {
        b
    }
}

/// A reader that gives at most `limit` bytes of a zlib stream, and fails
/// as soon as it is asked for more once that many were given.
pub struct SizeLimitedReader<'a> {
    inner: ZlibDecoder<&'a [u8]>,
    remaining: usize,
}

impl<'a> SizeLimitedReader<'a> {
    /// How many more bytes the reader may give.
    pub closed spec fn remaining_view(&self) -> nat {
        self.remaining as nat
    }

    /// The bytes the stream still has to give (`None` when it is corrupt or
    /// ends early).
    pub closed spec fn pending(&self) -> Option<Seq<u8>> {
        zlib_pending(self.inner)
    }

    /// A reader over `inner` that gives at most `limit` bytes.
    pub fn new(inner: ZlibDecoder<&'a [u8]>, limit: usize) -> (r: Self)
        ensures
            r.remaining_view() == limit,
            r.pending() == zlib_pending(inner),
    {
        SizeLimitedReader { inner, remaining: limit }
    }

    /// Reads up to `max` bytes: fails once the limit is used up.
    pub fn read(&mut self, max: usize) -> (r: Result<Vec<u8>, IoError>)
        ensures
            old(self).remaining_view() == 0 ==> r == Err::<Vec<u8>, IoError>(IoError::InvalidData)
                && final(self).pending() == old(self).pending(),
            r matches Ok(v) ==> v@.len() <= min_size(old(self).remaining_view(), max as nat)
                && final(self).remaining_view() == old(self).remaining_view() - v@.len(),
            r matches Err(e) ==> final(self).remaining_view() == old(self).remaining_view(),
            old(self).remaining_view() > 0 ==> (r matches Err(e) ==> zlib_error(e)),
            old(self).remaining_view() > 0 && max > 0 ==> match old(self).pending() {
                Some(p) => r matches Ok(v) && v@.len() <= p.len() && v@ == p.take(v@.len() as int) && (p.len() > 0
                    ==> v@.len() > 0)
                    && final(self).pending() == Some(p.skip(v@.len() as int)),
                None => r matches Ok(v) ==> v@.len() > 0 && final(self).pending() is None,
            },
    {
        if self.remaining == 0 {
            return Err(IoError::InvalidData);
        }
        let want = if self.remaining < max { self.remaining } else { max };
        match zlib_read(&mut self.inner, want) {
            Ok(v) => {
                self.remaining = self.remaining - v.len();
                Ok(v)
            },
            Err(e) => Err(e),
        }
    }

    /// Reads until the stream ends, appending to `dest`.  A whole stream
    /// shorter than the limit is appended and its length returned; a longer
    /// one fails with the limit's worth of it appended; a corrupt or cut
    /// stream fails.
    pub fn read_to_end(&mut self, dest: &mut Vec<u8>) -> (r: Result<usize, IoError>)
        ensures
            final(dest)@.len() >= old(dest)@.len(),
            final(dest)@.subrange(0, old(dest)@.len() as int) == old(dest)@,
            final(dest)@.len() - old(dest)@.len() + final(self).remaining_view() == old(self).remaining_view(),
            r matches Ok(n) ==> n == final(dest)@.len() - old(dest)@.len() && n < old(self).remaining_view(),
            r matches Err(e) ==> e == IoError::InvalidData || zlib_error(e),
            match old(self).pending() {
                Some(p) => if p.len() < old(self).remaining_view() {
                    r == Ok::<usize, IoError>(p.len() as usize) && final(dest)@ == old(dest)@ + p
                } else {
                    r == Err::<usize, IoError>(IoError::InvalidData) && final(dest)@ == old(dest)@ + p.take(
                        old(self).remaining_view() as int,
                    )
                },
                None => r is Err,
            },
    {
        let ghost d0 = dest@;
        let ghost r0 = self.remaining as nat;
        let ghost p0 = self.pending();
        let mut total: usize = 0;
        proof {
            if let Some(p) = p0 {
                assert(p.skip(0) =~= p);
                assert(d0 + p.take(0) =~= d0);
            }
        }
        loop
            invariant
                d0 == old(dest)@,
                r0 == old(self).remaining_view(),
                p0 == old(self).pending(),
                dest@.len() == d0.len() + total,
                dest@.subrange(0, d0.len() as int) == d0,
                total + self.remaining_view() == r0,
                match p0 {
                    Some(p) => total <= p.len() && self.pending() == Some(p.skip(total as int)) && dest@ == d0
                        + p.take(total as int),
                    None => self.pending() is None,
                },
            decreases self.remaining_view(),
        {
            let chunk = self.read(READ_CHUNK);
            match chunk {
                Ok(v) => {
                    if v.len() == 0 {
                        proof {
                            if let Some(p) = p0 {
                                assert(p.take(total as int) =~= p);
                            }
                        }
                        return Ok(total);
                    }
                    let ghost before = dest@;
                    let ghost vv = v@;
                    let n = v.len();
                    let mut part = v;
                    dest.append(&mut part);
                    proof {
                        assert(dest@.subrange(0, d0.len() as int) =~= before.subrange(0, d0.len() as int));
                        if let Some(p) = p0 {
                            assert(vv =~= p.subrange(total as int, total + n));
                            assert(p.skip(total as int).take(n as int) =~= p.subrange(total as int, total + n));
                            assert(dest@ =~= d0 + p.take(total + n));
                            assert(p.skip(total as int).skip(n as int) =~= p.skip(total + n));
                        }
                    }
                    total = total + n;
                },
                Err(e) => {
                    return Err(e);
                },
            }
        }
    }
}

/// The size-limited reading of bytes from a reader over received data: at
/// most `limit` bytes, failing as soon as more is asked for once that many
/// were given.  It holds the limit; the reader is handed to each call.
pub struct RefSizeLimitedReader {
    remaining: usize,
}

impl RefSizeLimitedReader {
    /// How many more bytes the reader may give.
    pub closed spec fn remaining_view(&self) -> nat {
        self.remaining as nat
    }

    /// A reader that gives at most `limit` bytes.
    pub fn new(limit: usize) -> (r: Self)
        ensures
            r.remaining_view() == limit,
    {
        RefSizeLimitedReader { remaining: limit }
    }

    /// Reads up to `max` bytes of `inner`: fails once the limit is used up.
    pub fn read(&mut self, inner: &mut ByteReader, max: usize) -> (r: Result<Vec<u8>, IoError>)
        ensures
            old(self).remaining_view() == 0 ==> r == Err::<Vec<u8>, IoError>(IoError::InvalidData)
                && final(inner).rest() == old(inner).rest() && final(self).remaining_view() == 0,
            old(self).remaining_view() > 0 ==> {
                let k = min_size(min_size(old(self).remaining_view(), max as nat), old(inner).rest().len());
                &&& r matches Ok(v) && v@ == old(inner).rest().take(k as int)
                &&& final(inner).rest() == old(inner).rest().skip(k as int)
                &&& final(self).remaining_view() == old(self).remaining_view() - k
            },
    {
        if self.remaining == 0 {
            return Err(IoError::InvalidData);
        }
        let a = if self.remaining < max { self.remaining } else { max };
        let avail = inner.remaining();
        let k = if a < avail { a } else { avail };
        match inner.read_exact(k) {
            Ok(v) => {
                self.remaining = self.remaining - k;
                Ok(v)
            },
            Err(e) => Err(e),
        }
    }

    /// Reads `inner` to its end, appending to `dest`: when the limit is
    /// reached first, fails with the limit's worth of bytes appended.
    pub fn read_to_end(&mut self, inner: &mut ByteReader, dest: &mut Vec<u8>) -> (r: Result<usize, IoError>)
        ensures
            ({
                let s = old(inner).rest();
                let rem = old(self).remaining_view();
                if s.len() < rem {
                    &&& r == Ok::<usize, IoError>(s.len() as usize)
                    &&& final(dest)@ == old(dest)@ + s
                    &&& final(inner).rest().len() == 0
                    &&& final(self).remaining_view() == rem - s.len()
                } else {
                    &&& r == Err::<usize, IoError>(IoError::InvalidData)
                    &&& final(dest)@ == old(dest)@ + s.take(rem as int)
                    &&& final(inner).rest() == s.skip(rem as int)
                    &&& final(self).remaining_view() == 0
                }
            }),
    {
        let ghost s = inner.rest();
        let ghost d0 = dest@;
        let ghost rem = self.remaining as nat;
        let mut total: usize = 0;
        proof { assert(s.skip(0) =~= s); assert(d0 + s.take(0) =~= d0); }
        loop
            invariant
                s == old(inner).rest(),
                d0 == old(dest)@,
                rem == old(self).remaining_view(),
                total <= s.len(),
                total + self.remaining_view() == rem,
                inner.rest() == s.skip(total as int),
                dest@ == d0 + s.take(total as int),
            decreases self.remaining_view(),
        {
            let v = self.read(inner, READ_CHUNK)?;
            if v.len() == 0 {
                proof { assert(s.take(total as int) =~= s); }
                return Ok(total);
            }
            let n = v.len();
            let mut part = v;
            dest.append(&mut part);
            proof {
                assert(inner.rest() =~= s.skip((total + n) as int));
                assert(dest@ =~= d0 + s.take((total + n) as int));
            }
            total = total + n;
        }
    }
}

/// Compresses a packet body for sending: below the threshold a zero length
/// and the bytes as they are (`Ok(false)`), else the uncompressed length
/// and the zlib stream (`Ok(true)`).
pub fn compress(data: &[u8], threshold: i32, dest: &mut Vec<u8>) -> (r: Result<bool, IoError>)
    ensures
        data@.len() < (threshold as usize) ==> r == Ok::<bool, IoError>(false) && final(dest)@ == old(dest)@
            + varint_bytes(0) + data@,
        data@.len() >= (threshold as usize) ==> {
            &&& r == Ok::<bool, IoError>(true)
            &&& final(dest)@ == old(dest)@ + varint_bytes((data@.len() as i32) as u32) + zlib_compressed(data@)
            &&& zlib_inflated(final(dest)@.skip((old(dest)@.len() + varint_bytes((data@.len() as i32) as u32).len()) as int))
                == Some(data@)
        },
{
    if data.len() < threshold as usize {
        let _ = VarInt(0).encode(dest, 5);
        dest.extend_from_slice(data);
        Ok(false)
    } else {
        let len = data.len() as i32;
        proof { crate::util::law_varint_size(len); }
        let _ = VarInt(len).encode(dest, 5);
        let ghost head = dest@;
        match zlib_compress(data) {
            Ok(z) => {
                let ghost zv = z@;
                let mut part = z;
                dest.append(&mut part);
                proof { assert(dest@.skip(head.len() as int) =~= zv); }
                Ok(true)
            },
            Err(_) => Err(IoError::InvalidData),
        }
    }
}

/// Decompresses a packet body: a zero length leaves the rest as it is,
/// any other length inflates the zlib stream that follows, up to
/// `DECOMPRESSED_LIMIT` bytes.
pub fn decompress(data: &[u8], dest: &mut Vec<u8>) -> (r: Result<(), IoError>)
    ensures
        match varint_decode(data@, 5) {
            Err(e) => r == Err::<(), IoError>(e) && final(dest)@ == old(dest)@,
            Ok((v, n)) => if (v as i32) as usize == 0 {
                r is Ok && final(dest)@ == old(dest)@ + data@.skip(n as int)
            } else {
                &&& final(dest)@.len() >= old(dest)@.len()
                &&& final(dest)@.subrange(0, old(dest)@.len() as int) == old(dest)@
                &&& final(dest)@.len() - old(dest)@.len() <= DECOMPRESSED_LIMIT
                &&& r matches Err(e) ==> e == IoError::InvalidData || zlib_error(e)
                &&& (zlib_inflated(data@.skip(n as int)) matches Some(d) && d.len() >= DECOMPRESSED_LIMIT)
                    ==> r == Err::<(), IoError>(IoError::InvalidData)
                &&& (r is Ok <==> (zlib_inflated(data@.skip(n as int)) matches Some(d) && d.len() < DECOMPRESSED_LIMIT))
                &&& r is Ok ==> final(dest)@ == old(dest)@ + zlib_inflated(data@.skip(n as int)).unwrap()
            },
        },
{
    let mut reader = ByteReader::new(data);
    proof { lemma_varint_decode_len(data@, 5); }
    let len = VarInt::decode(&mut reader, 5)?.get() as usize;
    if len == 0 {
        let rest = reader.rest_slice();
        dest.extend_from_slice(rest);
        Ok(())
    } else {
        let decoder = zlib_decoder(reader.rest_slice());
        let mut limited = SizeLimitedReader::new(decoder, DECOMPRESSED_LIMIT);
        limited.read_to_end(dest)?;
        Ok(())
    }
}

/// Law: a body below the threshold comes back unchanged: the frame that
/// `compress` writes for it (a zero length, then the bytes) is one that
/// `decompress` reads as uncompressed, and what follows the length is the
/// body.
pub proof fn law_uncompressed_roundtrip(data: Seq<u8>)
    ensures
        varint_decode(varint_bytes(0) + data, 5) matches Ok((v, n)) && (v as i32) as usize == 0 && (
        varint_bytes(0) + data).skip(n as int) == data,
{
    law_varint_roundtrip(0, data, 5);
    assert((varint_bytes(0) + data).skip(1) =~= data);
}



/// Law: a compressed frame reads back: after the length that `compress`
/// writes for a body of one byte or more comes the stream, which
/// `decompress` inflates (and `compress` states that it inflates to the
/// body).
pub proof fn law_compressed_frame(data: Seq<u8>, stream: Seq<u8>)
    requires
        0 < data.len() <= i32::MAX,
    ensures
        ({
            let frame = varint_bytes((data.len() as i32) as u32) + stream;
            &&& varint_decode(frame, 5) matches Ok((v, n)) && (v as i32) as usize != 0 && frame.skip(n as int)
                == stream
        }),
{
    let len = data.len() as i32;
    crate::util::law_varint_size(len);
    law_varint_roundtrip(len, stream, 5);
    let frame = varint_bytes(len as u32) + stream;
    assert(frame.skip(varint_bytes(len as u32).len() as int) =~= stream);
}

} // verus!
