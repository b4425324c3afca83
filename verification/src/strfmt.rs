//! Text helpers for the canonical hash strings and reports: UTF-8 carriage,
//! decimal rendering of integers, hexadecimal coding, ASCII case folding.
use vstd::prelude::*;
use vstd::utf8::{
    codepoint_width_1, decode_first_codepoint, decode_utf8, encode_utf8, is_leading_byte_width_1,
    length_of_first_codepoint, pop_first_scalar, valid_first_scalar, valid_utf8,
};

verus! {

/// Bytes below 0x80 always form valid UTF-8.
pub proof fn lemma_ascii_bytes_valid_utf8(bytes: Seq<u8>)
    requires
        forall|i: int| 0 <= i < bytes.len() ==> bytes[i] < 0x80,
    ensures
        valid_utf8(bytes),
    decreases bytes.len(),
{
    if bytes.len() > 0 {
        let b = bytes[0];
        assert(b < 0x80 ==> (b & 0x7f) == b) by (bit_vector);
        assert(is_leading_byte_width_1(b));
        assert(decode_first_codepoint(bytes) == codepoint_width_1(b));
        assert(length_of_first_codepoint(bytes) == 1);
        assert(valid_first_scalar(bytes));
        lemma_ascii_bytes_valid_utf8(bytes.subrange(1, bytes.len() as int));
        assert(pop_first_scalar(bytes) =~= bytes.subrange(1, bytes.len() as int));
    }
}

/// Relies on String::from_utf8: the string a byte vector encodes, where it
/// is valid UTF-8, and nothing where it is not.
#[verifier::external_body]
pub fn string_from_utf8(v: Vec<u8>) -> (r: Option<String>)
    ensures
        r is Some <==> valid_utf8(v@),
        r matches Some(s) ==> s@ == decode_utf8(v@),
{
    String::from_utf8(v).ok()
}

/// Decodes bytes the caller has shown to be valid UTF-8.
pub fn string_from_valid_utf8(v: Vec<u8>) -> (r: String)
    requires
        valid_utf8(v@),
    ensures
        r@ == decode_utf8(v@),
{
    match string_from_utf8(v) {
        Some(s) => s,
        None => String::new(),
    }
}

/// What String::from_utf8_lossy returns on the given bytes: a function of the
/// bytes alone.
pub uninterp spec fn lossy_decode(bytes: Seq<u8>) -> Seq<char>;

/// Relies on String::from_utf8_lossy: replaces ill-formed sequences with the
/// replacement character, and decodes valid UTF-8 input exactly.
#[verifier::external_body]
pub fn string_from_utf8_lossy(v: &[u8]) -> (r: String)
    ensures
        r@ == lossy_decode(v@),
        valid_utf8(v@) ==> r@ == decode_utf8(v@),
{
    String::from_utf8_lossy(v).into_owned()
}

/// The decimal digits of `n`, most significant first, as ASCII bytes.
pub open spec fn dec_bytes(n: nat) -> Seq<u8>
    decreases n,
{
    if n < 10 {
        seq![(48 + n) as u8]
    } else {
        dec_bytes(n / 10).push((48 + n % 10) as u8)
    }
}

pub proof fn lemma_dec_bytes_ascii(n: nat)
    ensures
        forall|i: int| 0 <= i < dec_bytes(n).len() ==> 48 <= #[trigger] dec_bytes(n)[i] < 58,
    decreases n,
{
    if n < 10 {
        assert(dec_bytes(n) =~= seq![(48 + n) as u8]);
    } else {
        lemma_dec_bytes_ascii(n / 10);
        let prefix = dec_bytes(n / 10);
        assert forall|i: int| 0 <= i < dec_bytes(n).len() implies 48 <= #[trigger] dec_bytes(
            n,
        )[i] < 58 by {
            if i < prefix.len() {
                assert(dec_bytes(n)[i] == prefix[i]);
            }
        }
    }
}

/// Writes the decimal digits of `n` onto the end of `out`.
pub fn push_dec_u32(out: &mut Vec<u8>, n: u32)
    ensures
        final(out)@ == old(out)@ + dec_bytes(n as nat),
    decreases n,
{
    if n < 10 {
        out.push(48 + (n as u8));
    } else {
        push_dec_u32(out, n / 10);
        out.push(48 + ((n % 10) as u8));
        proof {
            assert(out@ =~= old(out)@ + dec_bytes(n as nat));
        }
    }
}

/// Writes the decimal digits of `n` onto the end of `out`.
pub fn push_dec_usize(out: &mut Vec<u8>, n: usize)
    ensures
        final(out)@ == old(out)@ + dec_bytes(n as nat),
    decreases n,
{
    if n < 10 {
        out.push(48 + (n as u8));
    } else {
        push_dec_usize(out, n / 10);
        out.push(48 + ((n % 10) as u8));
        proof {
            assert(out@ =~= old(out)@ + dec_bytes(n as nat));
        }
    }
}

/// Renders `n` in decimal, as the canonical hash strings require.
pub fn u32_to_string(n: u32) -> (r: String)
    ensures
        encode_utf8(r@) == dec_bytes(n as nat),
{
    let mut v: Vec<u8> = Vec::new();
    push_dec_u32(&mut v, n);
    proof {
        lemma_dec_bytes_ascii(n as nat);
        lemma_ascii_bytes_valid_utf8(v@);
        vstd::utf8::decode_utf8_encode_utf8(v@);
    }
    string_from_valid_utf8(v)
}

/// The upper-case hexadecimal digit for a value below sixteen.
pub open spec fn hex_digit_upper(d: u8) -> u8
    recommends
        d < 16,
{
    if d < 10 {
        (48 + d) as u8
    } else {
        (55 + d) as u8
    }
}

/// The upper-case hexadecimal rendering of a byte sequence, two digits per
/// byte.
pub open spec fn hex_upper_bytes(bytes: Seq<u8>) -> Seq<u8> {
    Seq::new(2 * bytes.len(), |i: int| {
        if i % 2 == 0 {
            hex_digit_upper(bytes[i / 2] / 16)
        } else {
            hex_digit_upper((bytes[i / 2] % 16) as u8)
        }
    })
}

/// Renders bytes as upper-case hexadecimal digits.
pub fn hex_upper(bytes: &[u8]) -> (r: Vec<u8>)
    ensures
        r@ == hex_upper_bytes(bytes@),
{
    let mut out: Vec<u8> = Vec::new();
    let mut i: usize = 0;
    while i < bytes.len()
        invariant
            i <= bytes.len(),
            out@ =~= hex_upper_bytes(bytes@).take(2 * i as int),
        decreases bytes.len() - i,
    {
        let b = bytes[i];
        let hi = b / 16;
        let lo = b % 16;
        out.push(if hi < 10 { 48 + hi } else { 55 + hi });
        out.push(if lo < 10 { 48 + lo } else { 55 + lo });
        i = i + 1;
    }
    proof {
        assert(out@ =~= hex_upper_bytes(bytes@));
    }
    out
}

/// Renders bytes as an upper-case hexadecimal string.
pub fn hex_upper_string(bytes: &[u8]) -> (r: String)
    ensures
        encode_utf8(r@) == hex_upper_bytes(bytes@),
{
    let v = hex_upper(bytes);
    proof {
        lemma_ascii_bytes_valid_utf8(v@);
        vstd::utf8::decode_utf8_encode_utf8(v@);
    }
    string_from_valid_utf8(v)
}

/// True of ASCII digits and letters a-f and A-F.
pub open spec fn is_hex_digit(b: u8) -> bool {
    (48 <= b < 58) || (97 <= b < 103) || (65 <= b < 71)
}

/// The value of a hexadecimal digit.
pub open spec fn hex_val(b: u8) -> u8
    recommends
        is_hex_digit(b),
{
    if 48 <= b < 58 {
        (b - 48) as u8
    } else if 97 <= b < 103 {
        (b - 87) as u8
    } else {
        (b - 55) as u8
    }
}

/// The bytes denoted by a sequence of hexadecimal digit pairs.
pub open spec fn hex_decoded(digits: Seq<u8>) -> Seq<u8> {
    Seq::new(digits.len() / 2, |i: int| (16 * hex_val(digits[2 * i]) + hex_val(
        digits[2 * i + 1],
    )) as u8)
}

/// Why a hexadecimal text failed to decode.
#[derive(Debug, Clone, Copy, PartialEq, Eq, Structural)]
pub enum HexDecodeError {
    OddLength,
    InvalidHexCharacter,
}

/// Decodes hexadecimal digits into bytes; fails exactly on odd-length input
/// or on a byte that is no hexadecimal digit.
pub fn hex_decode(digits: &[u8]) -> (r: Result<Vec<u8>, HexDecodeError>)
    ensures
        r matches Ok(v) ==> v@ == hex_decoded(digits@),
        r is Ok <==> digits@.len() % 2 == 0 && (forall|i: int|
            0 <= i < digits@.len() ==> is_hex_digit(#[trigger] digits@[i])),
        r matches Err(e) ==> ((e is OddLength) <==> digits@.len() % 2 != 0),
{
    if digits.len() % 2 != 0 {
        return Err(HexDecodeError::OddLength);
    }
    let mut i: usize = 0;
    while i < digits.len()
        invariant
            i <= digits@.len(),
            digits@.len() % 2 == 0,
            forall|j: int| 0 <= j < i ==> is_hex_digit(#[trigger] digits@[j]),
        decreases digits.len() - i,
    {
        let b = digits[i];
        if !((48 <= b && b < 58) || (97 <= b && b < 103) || (65 <= b && b < 71)) {
            return Err(HexDecodeError::InvalidHexCharacter);
        }
        i = i + 1;
    }
    let mut out: Vec<u8> = Vec::new();
    let mut k: usize = 0;
    while k + 1 < digits.len()
        invariant
            k % 2 == 0,
            k <= digits@.len(),
            digits@.len() % 2 == 0,
            forall|j: int| 0 <= j < digits@.len() ==> is_hex_digit(#[trigger] digits@[j]),
            out@ =~= hex_decoded(digits@).take(k as int / 2),
        decreases digits.len() - k,
    {
        let hi = digits[k];
        let lo = digits[k + 1];
        let hv: u8 = if hi < 58 {
            hi - 48
        } else if hi >= 97 {
            hi - 87
        } else {
            hi - 55
        };
        let lv: u8 = if lo < 58 {
            lo - 48
        } else if lo >= 97 {
            lo - 87
        } else {
            lo - 55
        };
        out.push(16 * hv + lv);
        k = k + 2;
    }
    proof {
        assert(out@ =~= hex_decoded(digits@));
    }
    Ok(out)
}

/// The ASCII lower-case fold of one byte.
pub open spec fn lower_byte(b: u8) -> u8 {
    if 65 <= b < 91 {
        (b + 32) as u8
    } else {
        b
    }
}

/// The ASCII lower-case fold of a byte sequence.
pub open spec fn lower_bytes(bytes: Seq<u8>) -> Seq<u8> {
    bytes.map_values(|b: u8| lower_byte(b))
}

/// Folds ASCII upper-case letters to lower case, leaving other bytes alone.
pub fn to_ascii_lower(bytes: &[u8]) -> (r: Vec<u8>)
    ensures
        r@ == lower_bytes(bytes@),
{
    let mut out: Vec<u8> = Vec::new();
    let mut i: usize = 0;
    while i < bytes.len()
        invariant
            i <= bytes@.len(),
            out@ =~= lower_bytes(bytes@).take(i as int),
        decreases bytes.len() - i,
    {
        let b = bytes[i];
        if 65 <= b && b < 91 {
            out.push(b + 32);
        } else {
            out.push(b);
        }
        i = i + 1;
    }
    proof {
        assert(out@ =~= lower_bytes(bytes@));
    }
    out
}

/// The UTF-8 encoding of one byte read as a character U+00 to U+FF.
pub open spec fn latin1_utf8_byte(b: u8) -> Seq<u8> {
    if b < 0x80 {
        seq![b]
    } else {
        seq![(192 + b / 64) as u8, (128 + b % 64) as u8]
    }
}

/// The UTF-8 encoding of a byte sequence read as characters U+00 to U+FF.
pub open spec fn latin1_utf8(bytes: Seq<u8>) -> Seq<u8>
    decreases bytes.len(),
{
    if bytes.len() == 0 {
        seq![]
    } else {
        latin1_utf8_byte(bytes[0]) + latin1_utf8(bytes.drop_first())
    }
}

pub proof fn lemma_latin1_utf8_valid(bytes: Seq<u8>)
    ensures
        valid_utf8(latin1_utf8(bytes)),
        latin1_utf8(bytes).len() == 0 <==> bytes.len() == 0,
    decreases bytes.len(),
{
    if bytes.len() > 0 {
        let b = bytes[0];
        let enc = latin1_utf8(bytes);
        lemma_latin1_utf8_valid(bytes.drop_first());
        if b < 0x80 {
            assert(b < 0x80 ==> (b & 0x7f) == b) by (bit_vector);
            assert(valid_first_scalar(enc));
            assert(pop_first_scalar(enc) =~= latin1_utf8(bytes.drop_first()));
        } else {
            let lead = (192 + b / 64) as u8;
            let cont = (128 + b % 64) as u8;
            assert(0xc0 <= lead <= 0xdf && 0x80 <= cont <= 0xbf) by (bit_vector)
                requires
                    b >= 0x80,
                    lead == (192 + b / 64) as u8,
                    cont == (128 + b % 64) as u8,
            ;
            assert(vstd::utf8::codepoint_width_2(lead, cont) == b as u32) by (bit_vector)
                requires
                    b >= 0x80,
                    lead == (192 + b / 64) as u8,
                    cont == (128 + b % 64) as u8,
            ;
            assert(valid_first_scalar(enc));
            assert(pop_first_scalar(enc) =~= latin1_utf8(bytes.drop_first()));
        }
    }
}

/// Appends the UTF-8 encoding of one byte read as a character U+00 to U+FF.
pub fn push_latin1_byte(out: &mut Vec<u8>, b: u8)
    ensures
        final(out)@ == old(out)@ + latin1_utf8_byte(b),
{
    if b < 0x80 {
        out.push(b);
    } else {
        out.push(192 + b / 64);
        out.push(128 + b % 64);
    }
    proof {
        assert(out@ =~= old(out)@ + latin1_utf8_byte(b));
    }
}

/// Builds the string whose characters are the given bytes, each read as a
/// character U+00 to U+FF.
pub fn latin1_string(bytes: &[u8]) -> (r: String)
    ensures
        encode_utf8(r@) == latin1_utf8(bytes@),
        r@.len() == 0 <==> bytes@.len() == 0,
{
    let mut v: Vec<u8> = Vec::new();
    let mut i: usize = 0;
    while i < bytes.len()
        invariant
            i <= bytes@.len(),
            v@ == latin1_utf8(bytes@.take(i as int)),
        decreases bytes.len() - i,
    {
        push_latin1_byte(&mut v, bytes[i]);
        proof {
            lemma_latin1_utf8_snoc(bytes@.take(i as int), bytes@[i as int]);
            assert(bytes@.take(i + 1) =~= bytes@.take(i as int).push(bytes@[i as int]));
        }
        i = i + 1;
    }
    proof {
        assert(bytes@.take(bytes@.len() as int) =~= bytes@);
        lemma_latin1_utf8_valid(bytes@);
        vstd::utf8::decode_utf8_encode_utf8(v@);
    }
    string_from_valid_utf8(v)
}

proof fn lemma_latin1_utf8_snoc(bytes: Seq<u8>, last: u8)
    ensures
        latin1_utf8(bytes.push(last)) == latin1_utf8(bytes) + latin1_utf8_byte(last),
    decreases bytes.len(),
{
    if bytes.len() == 0 {
        assert(bytes.push(last)[0] == last);
        assert(bytes.push(last).drop_first() =~= Seq::<u8>::empty());
        assert(latin1_utf8(Seq::<u8>::empty()) =~= Seq::<u8>::empty());
        assert(latin1_utf8(bytes.push(last)) =~= latin1_utf8_byte(last));
        assert(latin1_utf8(bytes) + latin1_utf8_byte(last) =~= latin1_utf8_byte(last));
    } else {
        assert(bytes.push(last).drop_first() =~= bytes.drop_first().push(last));
        lemma_latin1_utf8_snoc(bytes.drop_first(), last);
        assert(latin1_utf8(bytes.push(last)) =~= latin1_utf8(bytes) + latin1_utf8_byte(last));
    }
}

/// What str::to_lowercase returns for the given characters: a function of the
/// characters alone.
pub uninterp spec fn lower_of(s: Seq<char>) -> Seq<char>;

/// Relies on str::to_lowercase: the Unicode lower-case fold of the string,
/// depending on its characters alone.
#[verifier::external_body]
pub fn to_lowercase(s: &str) -> (r: String)
    ensures
        r@ == lower_of(s@),
{
    s.to_lowercase()
}

} // verus!
