//! Wire primitives shared by the event codec and the bundle codec: little-endian integers,
//! length-prefixed strings padded to four bytes, and raw byte vectors.
use vstd::prelude::*;
use vstd::utf8::{decode_utf8, encode_utf8, valid_utf8};

use crate::strfmt::{lossy_decode, string_from_utf8_lossy};

verus! {

/// Why an event blob failed to decode.
#[derive(Debug, Clone, Copy, PartialEq, Eq, Structural)]
pub enum EventDecodeError {
    /// The buffer ends before the announced contents.
    Truncated,
    /// The leading class tag names another event.
    WrongClass,
}

/// `n` rounded up to the next multiple of four.
pub open spec fn align4(n: int) -> int {
    4 * ((n + 3) / 4)
}

/// `n` zero bytes.
pub open spec fn zero_bytes(n: int) -> Seq<u8> {
    Seq::new(if n < 0 { 0 } else { n as nat }, |i: int| 0u8)
}

/// The four little-endian bytes of `v`.
pub open spec fn le_bytes_of_u32(v: u32) -> Seq<u8> {
    seq![
        (v % 256) as u8,
        ((v / 256) % 256) as u8,
        ((v / 65536) % 256) as u8,
        ((v / 16777216) % 256) as u8,
    ]
}

/// The value of the four little-endian bytes at `pos`.
pub open spec fn le32_at(b: Seq<u8>, pos: int) -> u32
    recommends
        0 <= pos,
        pos + 4 <= b.len(),
{
    (b[pos] + 256 * b[pos + 1] + 65536 * b[pos + 2] + 16777216 * b[pos + 3]) as u32
}

pub proof fn lemma_le32_of_bytes(v: u32)
    ensures
        le32_at(le_bytes_of_u32(v), 0) == v,
{
    assert(v % 256 + 256 * ((v / 256) % 256) + 65536 * ((v / 65536) % 256) + 16777216 * ((v
        / 16777216) % 256) == v) by (bit_vector);
}

/// The eight little-endian bytes of `v`.
pub open spec fn le_bytes_of_u64(v: u64) -> Seq<u8> {
    seq![
        (v % 256) as u8,
        ((v / 0x100) % 256) as u8,
        ((v / 0x10000) % 256) as u8,
        ((v / 0x1000000) % 256) as u8,
        ((v / 0x100000000) % 256) as u8,
        ((v / 0x10000000000) % 256) as u8,
        ((v / 0x1000000000000) % 256) as u8,
        ((v / 0x100000000000000) % 256) as u8,
    ]
}

/// The value of the eight little-endian bytes at `pos`.
pub open spec fn le64_at(b: Seq<u8>, pos: int) -> u64
    recommends
        0 <= pos,
        pos + 8 <= b.len(),
{
    (b[pos] + 0x100 * b[pos + 1] + 0x10000 * b[pos + 2] + 0x1000000 * b[pos + 3] + 0x100000000 * b[
        pos + 4
    ] + 0x10000000000 * b[pos + 5] + 0x1000000000000 * b[pos + 6] + 0x100000000000000 * b[pos
        + 7]) as u64
}

pub proof fn lemma_le64_of_bytes(v: u64)
    ensures
        le64_at(le_bytes_of_u64(v), 0) == v,
{
    assert(v % 256 + 0x100 * ((v / 0x100) % 256) + 0x10000 * ((v / 0x10000) % 256) + 0x1000000 * ((
    v / 0x1000000) % 256) + 0x100000000 * ((v / 0x100000000) % 256) + 0x10000000000 * ((v
        / 0x10000000000) % 256) + 0x1000000000000 * ((v / 0x1000000000000) % 256)
        + 0x100000000000000 * ((v / 0x100000000000000) % 256) == v) by (bit_vector);
}

/// Reading eight little-endian bytes anywhere inside a larger sequence sees
/// only those bytes.
pub proof fn lemma_le64_at_subrange(b: Seq<u8>, pos: int)
    requires
        0 <= pos,
        pos + 8 <= b.len(),
    ensures
        le64_at(b, pos) == le64_at(b.subrange(pos, pos + 8), 0),
{
}

/// Appends the eight little-endian bytes of `v`.
pub fn push_u64_le(out: &mut Vec<u8>, v: u64)
    ensures
        final(out)@ == old(out)@ + le_bytes_of_u64(v),
{
    out.push((v % 256) as u8);
    out.push(((v / 0x100) % 256) as u8);
    out.push(((v / 0x10000) % 256) as u8);
    out.push(((v / 0x1000000) % 256) as u8);
    out.push(((v / 0x100000000) % 256) as u8);
    out.push(((v / 0x10000000000) % 256) as u8);
    out.push(((v / 0x1000000000000) % 256) as u8);
    out.push(((v / 0x100000000000000) % 256) as u8);
    proof {
        assert(out@ =~= old(out)@ + le_bytes_of_u64(v));
    }
}

/// Reads the little-endian value of the eight bytes at `pos`.
pub fn read_u64_le(bytes: &[u8], pos: usize) -> (r: u64)
    requires
        pos + 8 <= bytes@.len(),
    ensures
        r == le64_at(bytes@, pos as int),
{
    let b0 = bytes[pos] as u64;
    let b1 = bytes[pos + 1] as u64;
    let b2 = bytes[pos + 2] as u64;
    let b3 = bytes[pos + 3] as u64;
    let b4 = bytes[pos + 4] as u64;
    let b5 = bytes[pos + 5] as u64;
    let b6 = bytes[pos + 6] as u64;
    let b7 = bytes[pos + 7] as u64;
    b0 + 0x100 * b1 + 0x10000 * b2 + 0x1000000 * b3 + 0x100000000 * b4 + 0x10000000000 * b5
        + 0x1000000000000 * b6 + 0x100000000000000 * b7
}

/// Reading four little-endian bytes anywhere inside a larger sequence sees
/// only those bytes.
pub proof fn lemma_le32_at_subrange(b: Seq<u8>, pos: int)
    requires
        0 <= pos,
        pos + 4 <= b.len(),
    ensures
        le32_at(b, pos) == le32_at(b.subrange(pos, pos + 4), 0),
{
}

/// The wire form of a string: byte length, UTF-8 bytes, zero padding to the
/// next multiple of four.
pub open spec fn string_blob_of(s: Seq<char>) -> Seq<u8>
    recommends
        encode_utf8(s).len() <= u32::MAX,
{
    let bytes = encode_utf8(s);
    le_bytes_of_u32(bytes.len() as u32) + bytes + zero_bytes(
        align4(bytes.len() as int) - bytes.len(),
    )
}

/// The wire form of a byte vector: byte length, then the bytes, unpadded.
pub open spec fn bytes_blob_of(v: Seq<u8>) -> Seq<u8>
    recommends
        v.len() <= u32::MAX,
{
    le_bytes_of_u32(v.len() as u32) + v
}

/// True when a whole string blob lies at `pos`.
pub open spec fn string_blob_ok(b: Seq<u8>, pos: int) -> bool {
    &&& 0 <= pos
    &&& pos + 4 <= b.len()
    &&& pos + 4 + align4(le32_at(b, pos) as int) <= b.len()
}

/// The characters carried by the string blob at `pos`: the UTF-8 decoding
/// where the content is valid, the lossy decoding otherwise.
pub open spec fn string_blob_value(b: Seq<u8>, pos: int) -> Seq<char>
    recommends
        string_blob_ok(b, pos),
{
    let content = b.subrange(pos + 4, pos + 4 + le32_at(b, pos) as int);
    if valid_utf8(content) {
        decode_utf8(content)
    } else {
        lossy_decode(content)
    }
}

/// The byte size of the string blob at `pos`, padding included.
pub open spec fn string_blob_size(b: Seq<u8>, pos: int) -> int
    recommends
        string_blob_ok(b, pos),
{
    4 + align4(le32_at(b, pos) as int)
}

/// True when a whole byte-vector blob lies at `pos`.
pub open spec fn bytes_blob_ok(b: Seq<u8>, pos: int) -> bool {
    &&& 0 <= pos
    &&& pos + 4 <= b.len()
    &&& pos + 4 + le32_at(b, pos) <= b.len()
}

/// The bytes carried by the byte-vector blob at `pos`.
pub open spec fn bytes_blob_value(b: Seq<u8>, pos: int) -> Seq<u8>
    recommends
        bytes_blob_ok(b, pos),
{
    b.subrange(pos + 4, pos + 4 + le32_at(b, pos) as int)
}

/// The byte size of the byte-vector blob at `pos`.
pub open spec fn bytes_blob_size(b: Seq<u8>, pos: int) -> int
    recommends
        bytes_blob_ok(b, pos),
{
    4 + le32_at(b, pos) as int
}

pub proof fn lemma_align4_pad(n: int)
    requires
        0 <= n,
    ensures
        align4(n) == n + ((4 - n % 4) % 4),
        0 <= align4(n) - n < 4,
        n <= align4(n),
{
    vstd::arithmetic::div_mod::lemma_fundamental_div_mod(n, 4);
    vstd::arithmetic::div_mod::lemma_fundamental_div_mod(n + 3, 4);
}

/// Appends the four little-endian bytes of `v`.
pub fn push_u32_le(out: &mut Vec<u8>, v: u32)
    ensures
        final(out)@ == old(out)@ + le_bytes_of_u32(v),
{
    out.push((v % 256) as u8);
    out.push(((v / 256) % 256) as u8);
    out.push(((v / 65536) % 256) as u8);
    out.push(((v / 16777216) % 256) as u8);
    proof {
        assert(out@ =~= old(out)@ + le_bytes_of_u32(v));
    }
}

/// Reads the little-endian value of the four bytes at `pos`.
pub fn read_u32_le(bytes: &[u8], pos: usize) -> (r: u32)
    requires
        pos + 4 <= bytes@.len(),
    ensures
        r == le32_at(bytes@, pos as int),
{
    let b0 = bytes[pos] as u32;
    let b1 = bytes[pos + 1] as u32;
    let b2 = bytes[pos + 2] as u32;
    let b3 = bytes[pos + 3] as u32;
    b0 + 256 * b1 + 65536 * b2 + 16777216 * b3
}

/// Appends the wire form of a string.
pub fn push_string_blob(out: &mut Vec<u8>, s: &str)
    requires
        encode_utf8(s@).len() + 4 <= u32::MAX,
        old(out)@.len() + encode_utf8(s@).len() + 8 <= usize::MAX,
    ensures
        final(out)@ == old(out)@ + string_blob_of(s@),
{
    let bytes = s.as_bytes();
    let slen = bytes.len();
    push_u32_le(out, slen as u32);
    out.extend_from_slice(bytes);
    let pad = (4 - slen % 4) % 4;
    let mut p: usize = 0;
    while p < pad
        invariant
            p <= pad,
            out@ == old(out)@ + le_bytes_of_u32(slen as u32) + bytes@ + zero_bytes(p as int),
        decreases pad - p,
    {
        out.push(0);
        proof {
            assert(out@ =~= old(out)@ + le_bytes_of_u32(slen as u32) + bytes@ + zero_bytes(
                p + 1,
            ));
        }
        p = p + 1;
    }
    proof {
        lemma_align4_pad(slen as int);
        assert(out@ =~= old(out)@ + string_blob_of(s@));
    }
}

/// Appends the wire form of a byte vector.
pub fn push_bytes_blob(out: &mut Vec<u8>, v: &[u8])
    requires
        v@.len() <= u32::MAX,
    ensures
        final(out)@ == old(out)@ + bytes_blob_of(v@),
{
    push_u32_le(out, v.len() as u32);
    out.extend_from_slice(v);
    proof {
        assert(out@ =~= old(out)@ + bytes_blob_of(v@));
    }
}

/// Reads the string blob at `pos`; fails exactly when the buffer is too
/// short for its announced length.
pub fn read_string_blob(bytes: &[u8], pos: usize) -> (r: Result<
    (String, usize),
    EventDecodeError,
>)
    ensures
        r is Ok <==> string_blob_ok(bytes@, pos as int),
        r matches Ok((s, sz)) ==> s@ == string_blob_value(bytes@, pos as int) && sz
            == string_blob_size(bytes@, pos as int),
        r matches Err(e) ==> e is Truncated,
{
    if pos > bytes.len() || bytes.len() - pos < 4 {
        return Err(EventDecodeError::Truncated);
    }
    let slen32 = read_u32_le(bytes, pos);
    let slen = slen32 as usize;
    let content_start = pos + 4;
    let remaining = bytes.len() - content_start;
    let pad = (4 - slen % 4) % 4;
    proof {
        lemma_align4_pad(slen as int);
    }
    if slen > remaining || pad > remaining - slen {
        return Err(EventDecodeError::Truncated);
    }
    let content = vstd::slice::slice_subrange(bytes, content_start, content_start + slen);
    let s = string_from_utf8_lossy(content);
    Ok((s, 4 + slen + pad))
}

/// Reads the byte-vector blob at `pos`; fails exactly when the buffer is too
/// short for its announced length.
pub fn read_bytes_blob(bytes: &[u8], pos: usize) -> (r: Result<(Vec<u8>, usize), EventDecodeError>)
    ensures
        r is Ok <==> bytes_blob_ok(bytes@, pos as int),
        r matches Ok((v, sz)) ==> v@ == bytes_blob_value(bytes@, pos as int) && sz
            == bytes_blob_size(bytes@, pos as int),
        r matches Err(e) ==> e is Truncated,
{
    if pos > bytes.len() || bytes.len() - pos < 4 {
        return Err(EventDecodeError::Truncated);
    }
    let blen32 = read_u32_le(bytes, pos);
    let blen = blen32 as usize;
    let content_start = pos + 4;
    let remaining = bytes.len() - content_start;
    if blen > remaining {
        return Err(EventDecodeError::Truncated);
    }
    let content = vstd::slice::slice_subrange(bytes, content_start, content_start + blen);
    let mut v: Vec<u8> = Vec::new();
    v.extend_from_slice(content);
    Ok((v, 4 + blen))
}

/// Round trip of a string blob: decoding at the front of an encoded string
/// followed by anything recovers the string and steps past its blob.
pub proof fn lemma_string_blob_roundtrip(s: Seq<char>, prefix: Seq<u8>, rest: Seq<u8>)
    requires
        encode_utf8(s).len() + 4 <= u32::MAX,
    ensures
        ({
            let b = prefix + string_blob_of(s) + rest;
            let pos = prefix.len() as int;
            &&& string_blob_ok(b, pos)
            &&& string_blob_value(b, pos) == s
            &&& string_blob_size(b, pos) == string_blob_of(s).len()
        }),
{
    let bytes = encode_utf8(s);
    let n = bytes.len() as int;
    let b = prefix + string_blob_of(s) + rest;
    let pos = prefix.len() as int;
    lemma_align4_pad(n);
    assert(b.subrange(pos, pos + 4) =~= le_bytes_of_u32(bytes.len() as u32));
    lemma_le32_at_subrange(b, pos);
    lemma_le32_of_bytes(bytes.len() as u32);
    assert(le32_at(b, pos) == n);
    assert(b.subrange(pos + 4, pos + 4 + n) =~= bytes);
    vstd::utf8::encode_utf8_valid_utf8(s);
    vstd::utf8::encode_utf8_decode_utf8(s);
    assert(string_blob_value(b, pos) == s);
}

/// Round trip of a byte-vector blob.
pub proof fn lemma_bytes_blob_roundtrip(v: Seq<u8>, prefix: Seq<u8>, rest: Seq<u8>)
    requires
        v.len() <= u32::MAX,
    ensures
        ({
            let b = prefix + bytes_blob_of(v) + rest;
            let pos = prefix.len() as int;
            &&& bytes_blob_ok(b, pos)
            &&& bytes_blob_value(b, pos) == v
            &&& bytes_blob_size(b, pos) == bytes_blob_of(v).len()
        }),
{
    let b = prefix + bytes_blob_of(v) + rest;
    let pos = prefix.len() as int;
    assert(b.subrange(pos, pos + 4) =~= le_bytes_of_u32(v.len() as u32));
    lemma_le32_at_subrange(b, pos);
    lemma_le32_of_bytes(v.len() as u32);
    assert(b.subrange(pos + 4, pos + 4 + v.len()) =~= v);
}

} // verus!
