//! Deserializes one signature set from bundle bytes: the checksum over the
//! data region is verified before any rule body is decoded.
use vstd::prelude::*;

use crate::hashing::{sha256_buff_from_slice, sha256_eq, sha256_from_bytes, sha256_of};
use crate::sig_set::heuristic_set::HeurSet;
use crate::sig_set::sha_set::ShaSet;
use crate::sig_set::signature::{
    lemma_signature_roundtrip, parse_signature, sig_bytes, sig_view_wf, spec_parse_signature,
    SigView,
};
use crate::sig_set::sigset_serializer::{
    header_bytes_at, headers_bytes, lemma_concat_bytes_index, lemma_concat_bytes_len,
    lemma_headers_bytes_index, lemma_headers_bytes_len, lemma_take_len_bound,
    lemma_total_len_nonneg, serializable, set_bytes, set_checksum_input, set_region_bytes,
    set_region_size, total_len, views_bodies, MAX_SIG_SIZE,
};
use crate::sig_set::{known_set_magic, SigSetError, SET_MAGIC_U32};
use crate::wire::{le32_at, le_bytes_of_u32, push_u32_le, read_u32_le};

verus! {

/// A deserialized set: either the exact content-hash matcher or one of the
/// bitmap matchers.
pub enum SigSetKind {
    Sha(ShaSet),
    Heur(HeurSet),
}

/// The header a set starts with, where the bytes carry one: magic, stored
/// checksum, data-region size, rule count.
pub open spec fn spec_set_header_ok(b: Seq<u8>, pos: int) -> bool {
    0 <= pos && pos + 44 <= b.len()
}

pub open spec fn spec_set_magic(b: Seq<u8>, pos: int) -> u32 {
    le32_at(b, pos)
}

pub open spec fn spec_set_checksum(b: Seq<u8>, pos: int) -> Seq<u8> {
    b.subrange(pos + 4, pos + 36)
}

pub open spec fn spec_set_size(b: Seq<u8>, pos: int) -> u32 {
    le32_at(b, pos + 36)
}

pub open spec fn spec_set_elem_count(b: Seq<u8>, pos: int) -> u32 {
    le32_at(b, pos + 40)
}

/// The data region announced by the set header at `pos`.
pub open spec fn spec_set_data(b: Seq<u8>, pos: int) -> Seq<u8> {
    b.subrange(pos + 44, pos + 44 + spec_set_size(b, pos) as int)
}

/// True when the set at `pos` is carried whole: a known magic, the full
/// region present, and a checksum that matches the region.
pub open spec fn spec_set_ok(b: Seq<u8>, pos: int) -> bool {
    &&& spec_set_header_ok(b, pos)
    &&& known_set_magic(spec_set_magic(b, pos))
    &&& pos + 44 + spec_set_size(b, pos) <= b.len()
    &&& spec_set_checksum(b, pos) == sha256_of(
        le_bytes_of_u32(spec_set_size(b, pos)) + le_bytes_of_u32(spec_set_elem_count(b, pos))
            + spec_set_data(b, pos),
    )@
}

/// The rule view at slot `i` of a data region, where the slot carries one:
/// its header must lie inside the region, its size within the cap, its
/// body inside the region, and the body must parse.
#[verifier::opaque]
pub open spec fn spec_rule_at(data: Seq<u8>, count: int, i: int) -> Option<SigView> {
    if i * 12 + 12 > data.len() {
        None
    } else {
        let size = le32_at(data, i * 12 + 4) as int;
        let off = le32_at(data, i * 12 + 8) as int;
        if size > MAX_SIG_SIZE {
            None
        } else {
            let start = count * 12 + off;
            let end = start + size;
            if end > data.len() {
                None
            } else {
                match spec_parse_signature(data.subrange(start, end)) {
                    Some((v, _)) => Some(v),
                    None => None,
                }
            }
        }
    }
}

/// One parsed view per slot.
pub proof fn lemma_parse_rules_len(data: Seq<u8>, count: int, i: int)
    ensures
        spec_parse_rules(data, count, i) matches Some(vs) ==> vs.len() == (if count >= i {
            count - i
        } else {
            0
        }),
    decreases count - i,
{
    if i < count {
        lemma_parse_rules_len(data, count, i + 1);
    }
}

/// The rule views from slot `i` on, where every slot carries one.
pub open spec fn spec_parse_rules(data: Seq<u8>, count: int, i: int) -> Option<Seq<SigView>>
    decreases count - i,
{
    if i >= count {
        Some(Seq::empty())
    } else {
        match spec_rule_at(data, count, i) {
            None => None,
            Some(v) => match spec_parse_rules(data, count, i + 1) {
                None => None,
                Some(rest) => Some(seq![v] + rest),
            },
        }
    }
}

/// True when the rule views fit the set their magic names: content rules
/// only in a content-hash set; elsewhere multi-predicate rules only, at
/// most thirty-two.
pub open spec fn views_kind_ok(magic: u32, views: Seq<SigView>) -> bool {
    if magic == SET_MAGIC_U32 {
        forall|i: int| 0 <= i < views.len() ==> (#[trigger] views[i]).kind == 0
    } else {
        views.len() <= 32 && forall|i: int| 0 <= i < views.len() ==> (#[trigger] views[i]).kind
            != 0
    }
}

/// Pairwise distinct digests among content rules.
pub open spec fn distinct_shas(views: Seq<SigView>) -> bool {
    forall|i: int, j: int|
        0 <= i < j < views.len() ==> (#[trigger] views[i]).hashes[0] != (
        #[trigger] views[j]).hashes[0]
}

/// True when the deserialized set holds exactly the parsed rules.
pub open spec fn set_matches_views(set: SigSetKind, magic: u32, views: Seq<SigView>) -> bool {
    match set {
        SigSetKind::Heur(h) => {
            &&& h.wf()
            &&& h.magic == magic
            &&& h.sig_count() == views.len()
            &&& forall|i: int|
                0 <= i < views.len() ==> h.sig_name(i) == (#[trigger] views[i]).name
                    && h.sig_description(i) == views[i].description && h.sig_preds(i)
                    == views[i].hashes
        },
        SigSetKind::Sha(sh) => {
            &&& sh.wf()
            &&& magic == SET_MAGIC_U32
            &&& distinct_shas(views) ==> {
                &&& sh.sig_count() == views.len()
                &&& forall|i: int|
                    0 <= i < views.len() ==> sh.sha_at(i) == (#[trigger] views[i]).hashes[0]
                        && sh.name_at(i) == views[i].name && sh.description_at(i)
                        == views[i].description
            }
        },
    }
}

/// Where the whole region parses, the view at a slot stands at its place
/// in the full list.
proof fn lemma_rules_head_mismatch(
    data: Seq<u8>,
    count: int,
    i: int,
    built: Seq<SigView>,
    sv: SigView,
)
    requires
        0 <= i < count,
        built.len() == i,
        spec_rule_at(data, count, i) == Some(sv),
        spec_parse_rules(data, count, 0) matches Some(all_views) ==> (spec_parse_rules(
            data,
            count,
            i,
        ) matches Some(rest) && all_views == built + rest),
    ensures
        spec_parse_rules(data, count, 0) matches Some(all_views) ==> all_views[i] == sv
            && i < all_views.len(),
{
    match spec_parse_rules(data, count, 0) {
        Some(all_views) => {
            match spec_parse_rules(data, count, i) {
                Some(rest) => {
                    match spec_parse_rules(data, count, i + 1) {
                        Some(rest2) => {
                            assert(rest == seq![sv] + rest2);
                            assert(all_views[i] == (built + (seq![sv] + rest2))[i]);
                            assert((built + (seq![sv] + rest2))[i] == sv);
                        },
                        None => {
                            assert(false);
                        },
                    }
                },
                None => {
                    assert(false);
                },
            }
        },
        None => {},
    }
}

/// True when every view in a list is well formed.
pub open spec fn views_wf(views: Seq<SigView>) -> bool {
    forall|k: int| 0 <= k < views.len() ==> sig_view_wf(#[trigger] views[k])
}

/// Slot `i` of a region the serializer laid out reads back as rule `i`.
#[verifier::rlimit(100)]
proof fn lemma_region_rule_at(views: Seq<SigView>, i: int)
    requires
        views_wf(views),
        serializable(views),
        0 <= i < views.len(),
    ensures
        spec_rule_at(set_region_bytes(views_bodies(views)), views.len() as int, i) == Some(
            views[i],
        ),
{
    reveal(spec_rule_at);
    let bodies = views_bodies(views);
    let region = set_region_bytes(bodies);
    let n = views.len() as int;
    lemma_headers_bytes_len(bodies);
    lemma_concat_bytes_len(bodies);
    lemma_total_len_nonneg(bodies);
    lemma_total_len_nonneg(bodies.take(i));
    lemma_take_len_bound(bodies, i);
    lemma_headers_bytes_index(bodies, i);
    assert(region.subrange(12 * i, 12 * i + 12) =~= headers_bytes(bodies).subrange(
        12 * i,
        12 * i + 12,
    ));
    let hdr12 = region.subrange(12 * i, 12 * i + 12);
    assert(hdr12 == header_bytes_at(bodies, i));
    assert(region.subrange(12 * i + 4, 12 * i + 8) =~= hdr12.subrange(4, 8));
    assert(hdr12.subrange(4, 8) =~= crate::wire::le_bytes_of_u32(bodies[i].len() as u32));
    assert(region.subrange(12 * i + 8, 12 * i + 12) =~= hdr12.subrange(8, 12));
    assert(hdr12.subrange(8, 12) =~= crate::wire::le_bytes_of_u32(
        total_len(bodies.take(i)) as u32,
    ));
    crate::wire::lemma_le32_at_subrange(region, 12 * i + 4);
    crate::wire::lemma_le32_at_subrange(region, 12 * i + 8);
    crate::wire::lemma_le32_of_bytes(bodies[i].len() as u32);
    crate::wire::lemma_le32_of_bytes(total_len(bodies.take(i)) as u32);
    assert(bodies[i] == sig_bytes(views[i]));
    assert(le32_at(region, 12 * i + 4) == bodies[i].len());
    assert(le32_at(region, 12 * i + 8) == total_len(bodies.take(i)));
    let start = n * 12 + total_len(bodies.take(i));
    let end = start + bodies[i].len();
    lemma_concat_bytes_index(bodies, i);
    assert(region.subrange(start, end) =~= crate::hashing::concat_bytes(bodies).subrange(
        total_len(bodies.take(i)),
        total_len(bodies.take(i)) + bodies[i].len(),
    ));
    assert(region.subrange(start, end) == bodies[i]);
    lemma_signature_roundtrip(views[i], Seq::empty());
    assert(sig_bytes(views[i]) + Seq::<u8>::empty() =~= sig_bytes(views[i]));
    assert(spec_parse_signature(bodies[i]) == Some(
        (views[i], sig_bytes(views[i]).len() as int),
    ));
}

/// A region the serializer laid out parses back to its rule views, from
/// slot `i` on.
pub proof fn lemma_rules_roundtrip(views: Seq<SigView>, i: int)
    requires
        views_wf(views),
        serializable(views),
        0 <= i <= views.len(),
    ensures
        spec_parse_rules(set_region_bytes(views_bodies(views)), views.len() as int, i) == Some(
            views.skip(i),
        ),
    decreases views.len() - i,
{
    let region = set_region_bytes(views_bodies(views));
    let n = views.len() as int;
    if i == n {
        assert(views.skip(i) =~= Seq::<SigView>::empty());
    } else {
        lemma_region_rule_at(views, i);
        lemma_rules_roundtrip(views, i + 1);
        assert(seq![views[i]] + views.skip(i + 1) =~= views.skip(i));
    }
}

/// The header fields of one laid-out set, read back at any position.
#[verifier::rlimit(100)]
proof fn lemma_set_fields(magic: u32, views: Seq<SigView>, prefix: Seq<u8>, rest: Seq<u8>)
    requires
        views_wf(views),
        serializable(views),
    ensures
        ({
            let b = prefix + set_bytes(magic, views_bodies(views)) + rest;
            let pos = prefix.len() as int;
            &&& spec_set_header_ok(b, pos)
            &&& spec_set_magic(b, pos) == magic
            &&& spec_set_size(b, pos) == set_region_size(views_bodies(views))
            &&& spec_set_elem_count(b, pos) == views.len()
            &&& spec_set_data(b, pos) == set_region_bytes(views_bodies(views))
            &&& spec_set_checksum(b, pos) == sha256_of(
                set_checksum_input(views_bodies(views)),
            )@
            &&& 44 + spec_set_size(b, pos) == set_bytes(magic, views_bodies(views)).len()
        }),
{
    reveal(set_bytes);
    let bodies = views_bodies(views);
    let region = set_region_bytes(bodies);
    let sb = set_bytes(magic, bodies);
    let b = prefix + sb + rest;
    let pos = prefix.len() as int;
    lemma_headers_bytes_len(bodies);
    lemma_concat_bytes_len(bodies);
    lemma_total_len_nonneg(bodies);
    let cksum = sha256_of(set_checksum_input(bodies))@;
    let head = le_bytes_of_u32(magic) + cksum + le_bytes_of_u32(set_region_size(bodies) as u32)
        + le_bytes_of_u32(bodies.len() as u32);
    assert(sb == head + region) by {
        vstd::seq_lib::lemma_concat_associative(
            le_bytes_of_u32(magic) + cksum + le_bytes_of_u32(set_region_size(bodies) as u32),
            le_bytes_of_u32(bodies.len() as u32),
            region,
        );
    }
    assert(b == (prefix + head) + (region + rest)) by {
        vstd::seq_lib::lemma_concat_associative(prefix, head, region);
        vstd::seq_lib::lemma_concat_associative(prefix + head, region, rest);
        vstd::seq_lib::lemma_concat_associative(prefix, head + region, rest);
        vstd::seq_lib::lemma_concat_associative(prefix, head, region + rest);
    }
    assert(b.subrange(pos, pos + 4) =~= le_bytes_of_u32(magic));
    assert(b.subrange(pos + 4, pos + 36) =~= cksum);
    assert(b.subrange(pos + 36, pos + 40) =~= le_bytes_of_u32(set_region_size(bodies) as u32));
    assert(b.subrange(pos + 40, pos + 44) =~= le_bytes_of_u32(bodies.len() as u32));
    crate::wire::lemma_le32_at_subrange(b, pos);
    crate::wire::lemma_le32_at_subrange(b, pos + 36);
    crate::wire::lemma_le32_at_subrange(b, pos + 40);
    crate::wire::lemma_le32_of_bytes(magic);
    crate::wire::lemma_le32_of_bytes(set_region_size(bodies) as u32);
    crate::wire::lemma_le32_of_bytes(bodies.len() as u32);
    assert(b.subrange(pos + 44, pos + 44 + region.len()) =~= region);
}

/// The bytes of one set, laid out and then read back at any position,
/// yield the same header fields, data region and rules.
pub proof fn lemma_set_roundtrip(
    magic: u32,
    views: Seq<SigView>,
    prefix: Seq<u8>,
    rest: Seq<u8>,
)
    requires
        views_wf(views),
        serializable(views),
        known_set_magic(magic),
    ensures
        ({
            let b = prefix + set_bytes(magic, views_bodies(views)) + rest;
            let pos = prefix.len() as int;
            &&& spec_set_ok(b, pos)
            &&& spec_set_magic(b, pos) == magic
            &&& spec_set_elem_count(b, pos) == views.len()
            &&& spec_parse_rules(spec_set_data(b, pos), views.len() as int, 0) == Some(views)
            &&& 44 + spec_set_size(b, pos) == set_bytes(magic, views_bodies(views)).len()
        }),
{
    let bodies = views_bodies(views);
    let b = prefix + set_bytes(magic, bodies) + rest;
    let pos = prefix.len() as int;
    lemma_set_fields(magic, views, prefix, rest);
    assert(le_bytes_of_u32(spec_set_size(b, pos)) + le_bytes_of_u32(
        spec_set_elem_count(b, pos),
    ) + spec_set_data(b, pos) == set_checksum_input(bodies));
    lemma_rules_roundtrip(views, 0);
    assert(views.skip(0) =~= views);
}

/// Checksum necessity: a set loads only where the checksum stored in its
/// header is the digest of its size, count and data region. That a
/// changed region is refused rests on the digest differing, which only
/// running the hash can show.
pub proof fn lemma_checksum_required(b: Seq<u8>, pos: int)
    requires
        spec_set_ok(b, pos),
    ensures
        spec_set_checksum(b, pos) == sha256_of(
            le_bytes_of_u32(spec_set_size(b, pos)) + le_bytes_of_u32(spec_set_elem_count(b, pos))
                + spec_set_data(b, pos),
        )@,
{
}

/// Reads the set at `pos`: verifies its magic and checksum, then decodes
/// its rules into the matcher the magic names. Returns the set and the
/// bytes consumed.
pub fn parse_set(bytes: &[u8], pos: usize) -> (r: Result<(SigSetKind, usize), SigSetError>)
    ensures
        r matches Ok((set, consumed)) ==> {
            &&& spec_set_ok(bytes@, pos as int)
            &&& consumed == 44 + spec_set_size(bytes@, pos as int)
            &&& pos + consumed <= bytes@.len()
            &&& spec_parse_rules(
                spec_set_data(bytes@, pos as int),
                spec_set_elem_count(bytes@, pos as int) as int,
                0,
            ) matches Some(views) && views_kind_ok(spec_set_magic(bytes@, pos as int), views)
                && set_matches_views(set, spec_set_magic(bytes@, pos as int), views)
        },
        r is Ok <==> spec_set_ok(bytes@, pos as int) && spec_parse_rules(
            spec_set_data(bytes@, pos as int),
            spec_set_elem_count(bytes@, pos as int) as int,
            0,
        ) is Some && (spec_parse_rules(
            spec_set_data(bytes@, pos as int),
            spec_set_elem_count(bytes@, pos as int) as int,
            0,
        ) matches Some(views) ==> views_kind_ok(spec_set_magic(bytes@, pos as int), views)),
        r matches Err(e) ==> {
            &&& (!spec_set_header_ok(bytes@, pos as int) ==> e is IncorrectFileSizeError)
            &&& (spec_set_header_ok(bytes@, pos as int) && !known_set_magic(
                spec_set_magic(bytes@, pos as int),
            ) ==> e is IncorrectMagicError)
            &&& (spec_set_header_ok(bytes@, pos as int) && known_set_magic(
                spec_set_magic(bytes@, pos as int),
            ) && pos + 44 + spec_set_size(bytes@, pos as int) > bytes@.len()
                ==> e is IncorrectFileSizeError)
            &&& (spec_set_header_ok(bytes@, pos as int) && known_set_magic(
                spec_set_magic(bytes@, pos as int),
            ) && pos + 44 + spec_set_size(bytes@, pos as int) <= bytes@.len() && !spec_set_ok(
                bytes@,
                pos as int,
            ) ==> e is IncorrectChecksumError)
            &&& (spec_set_ok(bytes@, pos as int) ==> (e is DecodeError
                || e is IncorrectSignatureSizeError))
            &&& (e is IncorrectFileSizeError || e is IncorrectMagicError
                || e is IncorrectChecksumError || e is DecodeError
                || e is IncorrectSignatureSizeError)
        },
{
    let n = bytes.len();
    if pos > n || n - pos < 44 {
        return Err(SigSetError::IncorrectFileSizeError { size: n as u64 });
    }
    let magic = read_u32_le(bytes, pos);
    if !(magic == SET_MAGIC_U32 || magic == crate::sig_set::HEUR_MAGIC_U32 || magic
        == crate::sig_set::DYN_MAGIC_U32 || magic == crate::sig_set::BEH_MAGIC_U32) {
        return Err(SigSetError::IncorrectMagicError { current: magic });
    }
    let size32 = read_u32_le(bytes, pos + 36);
    let elem = read_u32_le(bytes, pos + 40);
    let size = size32 as usize;
    if size > n - (pos + 44) {
        return Err(SigSetError::IncorrectFileSizeError { size: (n - pos) as u64 });
    }
    let data = vstd::slice::slice_subrange(bytes, pos + 44, pos + 44 + size);
    let mut csin: Vec<u8> = Vec::new();
    push_u32_le(&mut csin, size32);
    push_u32_le(&mut csin, elem);
    csin.extend_from_slice(data);
    proof {
        assert(csin@ =~= le_bytes_of_u32(spec_set_size(bytes@, pos as int)) + le_bytes_of_u32(
            spec_set_elem_count(bytes@, pos as int),
        ) + spec_set_data(bytes@, pos as int));
    }
    let computed = sha256_from_bytes(csin.as_slice());
    let stored = sha256_buff_from_slice(bytes, pos + 4);
    if !sha256_eq(&computed, &stored) {
        let current = crate::hashing::convert_sha256_to_string(&computed);
        let expected = crate::hashing::convert_sha256_to_string(&stored);
        return Err(SigSetError::IncorrectChecksumError { current, expected });
    }
    proof {
        assert(stored@ == spec_set_checksum(bytes@, pos as int));
        assert(spec_set_ok(bytes@, pos as int));
    }
    match parse_set_rules(data, magic, elem) {
        Ok(set) => Ok((set, 44 + size)),
        Err(e) => Err(e),
    }
}

/// Decodes the rules of a verified data region into a fresh set.
fn parse_set_rules(data: &[u8], magic: u32, elem: u32) -> (r: Result<SigSetKind, SigSetError>)
    requires
        known_set_magic(magic),
    ensures
        r matches Ok(set) ==> spec_parse_rules(data@, elem as int, 0) matches Some(views)
            && views_kind_ok(magic, views) && set_matches_views(set, magic, views),
        r is Ok <==> spec_parse_rules(data@, elem as int, 0) is Some && (spec_parse_rules(
            data@,
            elem as int,
            0,
        ) matches Some(views) ==> views_kind_ok(magic, views)),
        r matches Err(e) ==> (e is DecodeError || e is IncorrectSignatureSizeError),
{
    let count = elem as usize;
    if magic == SET_MAGIC_U32 {
        let mut set = ShaSet::new_empty(magic);
        let ghost mut built: Seq<SigView> = Seq::empty();
        let mut i: usize = 0;
        while i < count
            invariant
                i <= count,
                count == elem,
                magic == SET_MAGIC_U32,
                set.wf(),
                built.len() == i,
                spec_parse_rules(data@, count as int, 0) is Some <==> spec_parse_rules(
                    data@,
                    count as int,
                    i as int,
                ) is Some,
                spec_parse_rules(data@, count as int, 0) matches Some(all) ==> (spec_parse_rules(
                    data@,
                    count as int,
                    i as int,
                ) matches Some(rest) && all == built + rest),
                forall|k: int| 0 <= k < i ==> (#[trigger] built[k]).kind == 0,
                distinct_shas(built) ==> {
                    &&& set.sig_count() == built.len()
                    &&& forall|k: int|
                        0 <= k < built.len() ==> set.sha_at(k) == (#[trigger] built[k]).hashes[0]
                            && set.name_at(k) == built[k].name && set.description_at(k)
                            == built[k].description
                },
            decreases count - i,
        {
            let sig = match parse_rule(data, count, i) {
                Ok(s) => s,
                Err(e) => {
                    return Err(e);
                },
            };
            let ghost sv = sig@;
            if !matches!(sig.data, crate::sig_set::signature::SigData::Sha(_)) {
                proof {
                    lemma_rules_head_mismatch(data@, count as int, i as int, built, sv);
                }
                return Err(SigSetError::DecodeError);
            }
            let ghost prev_set = set;
            let ghost prevb = built;
            proof {
                assert(distinct_shas(prevb.push(sv)) ==> !prev_set.contains_sha(
                    sv.hashes[0],
                ) && distinct_shas(prevb)) by {
                    if distinct_shas(prevb.push(sv)) {
                        assert forall|a: int, b: int| 0 <= a < b < prevb.len() implies (
                        #[trigger] prevb[a]).hashes[0] != (#[trigger] prevb[b]).hashes[0] by {
                            assert(prevb[a] == prevb.push(sv)[a] && prevb[b] == prevb.push(
                                sv,
                            )[b]);
                        }
                        if prev_set.contains_sha(sv.hashes[0]) {
                            let w = choose|w: int|
                                0 <= w < prev_set.sig_count() && #[trigger] prev_set.sha_at(w)
                                    == sv.hashes[0];
                            assert(prevb[w].hashes[0] == sv.hashes[0]);
                            assert(prevb.push(sv)[w] == prevb[w]);
                            assert(prevb.push(sv)[prevb.len() as int] == sv);
                            assert(false);
                        }
                    }
                }
            }
            set.append_signature(i as u32, sig);
            proof {
                built = built.push(sv);
                assert(spec_rule_at(data@, count as int, i as int) == Some(sv));
                match spec_parse_rules(data@, count as int, i + 1) {
                    Some(rest) => {
                        assert(prevb + (seq![sv] + rest) =~= built + rest);
                    },
                    None => {},
                }
                assert(distinct_shas(built) ==> {
                    &&& set.sig_count() == built.len()
                    &&& forall|k: int|
                        0 <= k < built.len() ==> set.sha_at(k) == (#[trigger] built[k]).hashes[0]
                            && set.name_at(k) == built[k].name && set.description_at(k)
                            == built[k].description
                }) by {
                    if distinct_shas(built) {
                        assert(!prev_set.contains_sha(sv.hashes[0]));
                        assert(distinct_shas(prevb));
                        assert(set.sig_count() == prevb.len() + 1);
                        assert forall|k: int|
                            0 <= k < built.len() implies set.sha_at(k) == (
                        #[trigger] built[k]).hashes[0] && set.name_at(k) == built[k].name
                            && set.description_at(k) == built[k].description by {
                            if k < prevb.len() {
                                assert(built[k] == prevb[k]);
                                assert(set.sha_at(k) == prev_set.sha_at(k));
                                assert(set.name_at(k) == prev_set.name_at(k));
                                assert(set.description_at(k) == prev_set.description_at(k));
                            } else {
                                assert(built[k] == sv);
                            }
                        }
                    }
                }
            }
            i = i + 1;
        }
        proof {
            assert(spec_parse_rules(data@, count as int, count as int) == Some(
                Seq::<SigView>::empty(),
            ));
            match spec_parse_rules(data@, count as int, 0) {
                Some(all_views) => {
                    assert(all_views =~= built);
                },
                None => {},
            }
        }
        Ok(SigSetKind::Sha(set))
    } else {
        if count > 32 {
            proof {
                lemma_parse_rules_len(data@, count as int, 0);
            }
            return Err(SigSetError::IncorrectSignatureSizeError { size: elem });
        }
        let mut set = HeurSet::new_empty(magic);
        let ghost mut built: Seq<SigView> = Seq::empty();
        let mut i: usize = 0;
        while i < count
            invariant
                i <= count,
                count == elem,
                count <= 32,
                set.wf(),
                set.magic == magic,
                known_set_magic(magic),
                magic != SET_MAGIC_U32,
                built.len() == i,
                set.sig_count() == i,
                spec_parse_rules(data@, count as int, 0) is Some <==> spec_parse_rules(
                    data@,
                    count as int,
                    i as int,
                ) is Some,
                spec_parse_rules(data@, count as int, 0) matches Some(all) ==> (spec_parse_rules(
                    data@,
                    count as int,
                    i as int,
                ) matches Some(rest) && all == built + rest),
                forall|k: int| 0 <= k < i ==> (#[trigger] built[k]).kind != 0,
                forall|k: int|
                    0 <= k < built.len() ==> set.sig_name(k) == (#[trigger] built[k]).name
                        && set.sig_description(k) == built[k].description && set.sig_preds(k)
                        == built[k].hashes,
            decreases count - i,
        {
            let sig = match parse_rule(data, count, i) {
                Ok(s) => s,
                Err(e) => {
                    return Err(e);
                },
            };
            let ghost sv = sig@;
            if matches!(sig.data, crate::sig_set::signature::SigData::Sha(_)) {
                proof {
                    lemma_rules_head_mismatch(data@, count as int, i as int, built, sv);
                }
                return Err(SigSetError::DecodeError);
            }
            let ghost prevb = built;
            set.append_signature(i as u32, sig);
            proof {
                built = built.push(sv);
                assert(spec_rule_at(data@, count as int, i as int) == Some(sv));
                match spec_parse_rules(data@, count as int, i + 1) {
                    Some(rest) => {
                        assert(prevb + (seq![sv] + rest) =~= built + rest);
                    },
                    None => {},
                }
            }
            i = i + 1;
        }
        proof {
            assert(spec_parse_rules(data@, count as int, count as int) == Some(
                Seq::<SigView>::empty(),
            ));
            match spec_parse_rules(data@, count as int, 0) {
                Some(all_views) => {
                    assert(all_views =~= built);
                },
                None => {},
            }
        }
        Ok(SigSetKind::Heur(set))
    }
}

/// Decodes the rule at slot `i` of a data region.
fn parse_rule(data: &[u8], count: usize, i: usize) -> (r: Result<Signature, SigSetError>)
    requires
        i < count,
        count <= u32::MAX,
    ensures
        r matches Ok(sig) ==> spec_rule_at(data@, count as int, i as int) == Some(sig@),
        r is Ok <==> spec_rule_at(data@, count as int, i as int) is Some,
        r matches Err(e) ==> (e is DecodeError || e is IncorrectSignatureSizeError),
{
    proof {
        reveal(spec_rule_at);
    }
    let n = data.len();
    if n < 12 || i > (n - 12) / 12 {
        proof {
            assert(i * 12 + 12 > n);
        }
        return Err(SigSetError::DecodeError);
    }
    proof {
        assert(i * 12 + 12 <= n);
    }
    let size32 = read_u32_le(data, i * 12 + 4);
    let off32 = read_u32_le(data, i * 12 + 8);
    if size32 > MAX_SIG_SIZE {
        return Err(SigSetError::IncorrectSignatureSizeError { size: size32 });
    }
    let start64 = (count as u64) * 12 + (off32 as u64);
    let end64 = start64 + (size32 as u64);
    if end64 > n as u64 {
        return Err(SigSetError::IncorrectSignatureSizeError { size: size32 });
    }
    let start = start64 as usize;
    let end = end64 as usize;
    let body = vstd::slice::slice_subrange(data, start, end);
    match parse_signature(body) {
        Ok((sig, _)) => Ok(sig),
        Err(_) => Err(SigSetError::DecodeError),
    }
}

use crate::sig_set::signature::Signature;

} // verus!
