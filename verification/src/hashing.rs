//! SHA-256 digests and their hexadecimal text form.
use vstd::prelude::*;
use vstd::utf8::{decode_utf8, encode_utf8, valid_utf8};

verus! {

/// Length in bytes of a SHA-256 digest.
pub const SHA256_LEN: usize = 32;

/// A SHA-256 digest.
pub type Sha256Buff = [u8; 32];

/// The SHA-256 digest of a byte sequence; the digest of given bytes is a
/// single well-defined value, stated only through this name.
pub uninterp spec fn sha256_of(bytes: Seq<u8>) -> Sha256Buff;

/// Relies on sha2::Sha256 (Digest::digest): the SHA-256 digest of the input,
/// a function of the input bytes alone, 32 bytes long.
#[verifier::external_body]
pub fn sha256_from_bytes(v: &[u8]) -> (r: Sha256Buff)
    ensures
        r == sha256_of(v@),
{
    let mut buf: Sha256Buff = [0u8; 32];
    let digest = <sha2::Sha256 as sha2::Digest>::digest(v);
    buf.copy_from_slice(&digest);
    buf
}

/// Hashes an owned byte vector.
pub fn sha256_from_vec(v: Vec<u8>) -> (r: Sha256Buff)
    ensures
        r == sha256_of(v@),
{
    sha256_from_bytes(v.as_slice())
}

/// Hashes the UTF-8 bytes of a string.
pub fn sha256_from_string(s: String) -> (r: Sha256Buff)
    ensures
        r == sha256_of(encode_utf8(s@)),
{
    sha256_from_bytes(s.as_str().as_bytes())
}

/// The concatenation of a sequence of byte sequences.
pub open spec fn concat_bytes(parts: Seq<Seq<u8>>) -> Seq<u8>
    decreases parts.len(),
{
    if parts.len() == 0 {
        Seq::empty()
    } else {
        parts[0] + concat_bytes(parts.drop_first())
    }
}

proof fn lemma_concat_bytes_push(parts: Seq<Seq<u8>>, last: Seq<u8>)
    ensures
        concat_bytes(parts.push(last)) == concat_bytes(parts) + last,
    decreases parts.len(),
{
    if parts.len() == 0 {
        let pushed = parts.push(last);
        assert(pushed[0] == last);
        assert(pushed.drop_first() =~= Seq::<Seq<u8>>::empty());
        assert(concat_bytes(pushed.drop_first()) == Seq::<u8>::empty());
        assert(concat_bytes(pushed) == last + Seq::<u8>::empty());
        assert(last + Seq::<u8>::empty() =~= last);
        assert(Seq::<u8>::empty() + last =~= last);
    } else {
        assert(parts.push(last).drop_first() =~= parts.drop_first().push(last));
        lemma_concat_bytes_push(parts.drop_first(), last);
        assert(concat_bytes(parts.push(last)) =~= concat_bytes(parts) + last);
    }
}

/// Hashes the concatenation of several byte vectors, fed to the digest in
/// order.
pub fn sha256_from_vec_of_vec(vec: Vec<Vec<u8>>) -> (r: Sha256Buff)
    ensures
        r == sha256_of(concat_bytes(vec.deep_view())),
{
    let mut flat: Vec<u8> = Vec::new();
    let ghost parts = vec.deep_view();
    let mut i: usize = 0;
    while i < vec.len()
        invariant
            i <= vec.len(),
            parts == vec.deep_view(),
            parts.len() == vec.len(),
            forall|j: int| 0 <= j < vec.len() ==> parts[j] == vec@[j]@,
            flat@ == concat_bytes(parts.take(i as int)),
        decreases vec.len() - i,
    {
        let part = &vec[i];
        flat.extend_from_slice(part.as_slice());
        proof {
            assert(parts.take(i + 1) =~= parts.take(i as int).push(parts[i as int]));
            lemma_concat_bytes_push(parts.take(i as int), parts[i as int]);
        }
        i = i + 1;
    }
    proof {
        assert(parts.take(vec.len() as int) =~= parts);
    }
    sha256_from_bytes(flat.as_slice())
}

/// Why a hexadecimal digest text failed to parse.
#[derive(Debug, Clone, Copy, PartialEq, Eq, Structural)]
pub enum ShaError {
    /// The digits decode to some other number of bytes than thirty-two.
    IncorrectStringLen { string_len: usize },
    /// The text is no even-length hexadecimal string.
    ToHexError(crate::strfmt::HexDecodeError),
}

/// Renders a digest as sixty-four upper-case hexadecimal digits.
pub fn convert_sha256_to_string(sha: &Sha256Buff) -> (r: String)
    ensures
        vstd::utf8::encode_utf8(r@) == crate::strfmt::hex_upper_bytes(sha@),
{
    crate::strfmt::hex_upper_string(sha.as_slice())
}

/// Parses a digest from hexadecimal text; fails exactly on a non-hex
/// character, an odd length, or a decoded length other than thirty-two.
pub fn sha256_from_sha_string(s: &str) -> (r: Result<Sha256Buff, ShaError>)
    ensures
        ({
            let digits = vstd::utf8::encode_utf8(s@);
            let hex_ok = digits.len() % 2 == 0 && (forall|i: int|
                0 <= i < digits.len() ==> crate::strfmt::is_hex_digit(#[trigger] digits[i]));
            &&& (r is Ok <==> hex_ok && digits.len() == 64)
            &&& (r matches Ok(buf) ==> buf@ == crate::strfmt::hex_decoded(digits))
            &&& (r matches Err(e) ==> (e is ToHexError <==> !hex_ok))
        }),
{
    let digits = s.as_bytes();
    let decoded = match crate::strfmt::hex_decode(digits) {
        Ok(v) => v,
        Err(e) => {
            return Err(ShaError::ToHexError(e));
        },
    };
    if decoded.len() != SHA256_LEN {
        return Err(ShaError::IncorrectStringLen { string_len: decoded.len() });
    }
    Ok(sha256_buff_from_slice(decoded.as_slice(), 0))
}

/// Copies thirty-two bytes at `pos` into a digest value.
pub fn sha256_buff_from_slice(bytes: &[u8], pos: usize) -> (r: Sha256Buff)
    requires
        pos + 32 <= bytes@.len(),
    ensures
        r@ == bytes@.subrange(pos as int, pos + 32),
{
    let mut buf: Sha256Buff = [0u8; 32];
    let n = bytes.len();
    let mut i: usize = 0;
    while i < 32
        invariant
            i <= 32,
            n == bytes@.len(),
            pos + 32 <= n,
            forall|j: int| 0 <= j < i ==> buf@[j] == bytes@[pos + j],
        decreases 32 - i,
    {
        buf[i] = bytes[pos + i];
        i = i + 1;
    }
    proof {
        assert(buf@ =~= bytes@.subrange(pos as int, pos + 32));
    }
    buf
}

/// Byte-wise equality of two digests.
pub fn sha256_eq(a: &Sha256Buff, b: &Sha256Buff) -> (r: bool)
    ensures
        r == (a@ == b@),
{
    let mut i: usize = 0;
    while i < 32
        invariant
            i <= 32,
            forall|j: int| 0 <= j < i ==> a@[j] == b@[j],
        decreases 32 - i,
    {
        if a[i] != b[i] {
            return false;
        }
        i = i + 1;
    }
    proof {
        assert(a@ =~= b@);
    }
    true
}

} // verus!
