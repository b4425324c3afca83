//! Serializes one signature set: a set header sealed with a checksum over
//! the data region, then one header per rule, then the rule bodies.
use vstd::prelude::*;

use crate::hashing::{concat_bytes, sha256_from_bytes, sha256_of};
use crate::sig_set::signature::{sig_bytes, SigId, SigView};
use crate::sig_set::SigSetError;
use crate::wire::{le_bytes_of_u32, push_u32_le};

verus! {

/// The largest rule body a bundle may carry: four mebibytes.
pub const MAX_SIG_SIZE: u32 = 0x400000;

/// The most rules one set's serializer accepts.
pub const MAX_SET_ELEMS: u32 = 0x10000;

/// The on-disk header of one rule inside a set: its id, its body's size,
/// and the body's offset from the start of the body region.
pub struct SerSigHeader {
    pub id: u32,
    pub size: u32,
    pub offset: u32,
}

/// The total length of a list of rule bodies.
pub open spec fn total_len(bodies: Seq<Seq<u8>>) -> int
    decreases bodies.len(),
{
    if bodies.len() == 0 {
        0
    } else {
        total_len(bodies.drop_last()) + bodies.last().len()
    }
}

/// The bytes of the rule header for body `k` of the list.
pub open spec fn header_bytes_at(bodies: Seq<Seq<u8>>, k: int) -> Seq<u8>
    recommends
        0 <= k < bodies.len(),
{
    le_bytes_of_u32(k as u32) + le_bytes_of_u32(bodies[k].len() as u32) + le_bytes_of_u32(
        total_len(bodies.take(k)) as u32,
    )
}

/// The bytes of all rule headers, in order.
pub open spec fn headers_bytes(bodies: Seq<Seq<u8>>) -> Seq<u8>
    decreases bodies.len(),
{
    if bodies.len() == 0 {
        Seq::empty()
    } else {
        headers_bytes(bodies.drop_last()) + header_bytes_at(bodies, bodies.len() - 1)
    }
}

/// The data region of a set: the rule headers, then the bodies.
pub open spec fn set_region_bytes(bodies: Seq<Seq<u8>>) -> Seq<u8> {
    headers_bytes(bodies) + concat_bytes(bodies)
}

/// The byte size of the data region.
pub open spec fn set_region_size(bodies: Seq<Seq<u8>>) -> int {
    12 * bodies.len() + total_len(bodies)
}

/// What the set checksum is computed over: the region size, the rule
/// count, and the region itself.
pub open spec fn set_checksum_input(bodies: Seq<Seq<u8>>) -> Seq<u8> {
    le_bytes_of_u32(set_region_size(bodies) as u32) + le_bytes_of_u32(bodies.len() as u32)
        + set_region_bytes(bodies)
}

/// The full on-disk bytes of one set.
#[verifier::opaque]
pub open spec fn set_bytes(magic: u32, bodies: Seq<Seq<u8>>) -> Seq<u8> {
    le_bytes_of_u32(magic) + sha256_of(set_checksum_input(bodies))@ + le_bytes_of_u32(
        set_region_size(bodies) as u32,
    ) + le_bytes_of_u32(bodies.len() as u32) + set_region_bytes(bodies)
}

pub proof fn lemma_total_len_nonneg(bodies: Seq<Seq<u8>>)
    ensures
        total_len(bodies) >= 0,
    decreases bodies.len(),
{
    if bodies.len() > 0 {
        lemma_total_len_nonneg(bodies.drop_last());
    }
}

pub proof fn lemma_headers_bytes_len(bodies: Seq<Seq<u8>>)
    ensures
        headers_bytes(bodies).len() == 12 * bodies.len(),
    decreases bodies.len(),
{
    if bodies.len() > 0 {
        lemma_headers_bytes_len(bodies.drop_last());
    }
}

pub proof fn lemma_concat_bytes_len(bodies: Seq<Seq<u8>>)
    ensures
        concat_bytes(bodies).len() == total_len(bodies),
    decreases bodies.len(),
{
    if bodies.len() > 0 {
        lemma_concat_bytes_len(bodies.drop_last());
        lemma_concat_push(bodies.drop_last(), bodies.last());
        assert(bodies.drop_last().push(bodies.last()) =~= bodies);
    }
}

/// Concatenation over a snoc.
pub proof fn lemma_concat_push(bodies: Seq<Seq<u8>>, last: Seq<u8>)
    ensures
        concat_bytes(bodies.push(last)) == concat_bytes(bodies) + last,
    decreases bodies.len(),
{
    if bodies.len() == 0 {
        let pushed = bodies.push(last);
        assert(pushed[0] == last);
        assert(pushed.drop_first() =~= Seq::<Seq<u8>>::empty());
        assert(concat_bytes(pushed.drop_first()) == Seq::<u8>::empty());
        assert(concat_bytes(pushed) == last + Seq::<u8>::empty());
        assert(last + Seq::<u8>::empty() =~= last);
        assert(Seq::<u8>::empty() + last =~= last);
    } else {
        assert(bodies.push(last).drop_first() =~= bodies.drop_first().push(last));
        lemma_concat_push(bodies.drop_first(), last);
        assert(concat_bytes(bodies.push(last)) =~= concat_bytes(bodies) + last);
    }
}

/// Each body sits at its cumulative offset inside the concatenation.
pub proof fn lemma_concat_bytes_index(bodies: Seq<Seq<u8>>, k: int)
    requires
        0 <= k < bodies.len(),
    ensures
        concat_bytes(bodies).subrange(
            total_len(bodies.take(k)),
            total_len(bodies.take(k)) + bodies[k].len(),
        ) == bodies[k],
    decreases bodies.len(),
{
    lemma_total_len_nonneg(bodies.take(k));
    lemma_concat_bytes_len(bodies);
    if k == bodies.len() - 1 {
        lemma_concat_push(bodies.drop_last(), bodies.last());
        assert(bodies.drop_last().push(bodies.last()) =~= bodies);
        lemma_concat_bytes_len(bodies.drop_last());
        assert(bodies.take(k) =~= bodies.drop_last());
        assert(concat_bytes(bodies).subrange(
            total_len(bodies.take(k)),
            total_len(bodies.take(k)) + bodies[k].len(),
        ) =~= bodies[k]);
    } else {
        lemma_concat_bytes_index(bodies.drop_last(), k);
        lemma_concat_push(bodies.drop_last(), bodies.last());
        assert(bodies.drop_last().push(bodies.last()) =~= bodies);
        assert(bodies.drop_last().take(k) =~= bodies.take(k));
        lemma_total_len_nonneg(bodies.drop_last().take(k));
        lemma_concat_bytes_len(bodies.drop_last());
        assert(total_len(bodies.take(k)) + bodies[k].len() <= concat_bytes(
            bodies.drop_last(),
        ).len()) by {
            lemma_take_len_bound(bodies.drop_last(), k);
        }
        assert(concat_bytes(bodies).subrange(
            total_len(bodies.take(k)),
            total_len(bodies.take(k)) + bodies[k].len(),
        ) =~= concat_bytes(bodies.drop_last()).subrange(
            total_len(bodies.take(k)),
            total_len(bodies.take(k)) + bodies[k].len(),
        ));
    }
}

/// A prefix never outweighs the whole: the bytes up to and including body
/// `k` fit inside the total.
pub proof fn lemma_take_len_bound(bodies: Seq<Seq<u8>>, k: int)
    requires
        0 <= k < bodies.len(),
    ensures
        total_len(bodies.take(k)) + bodies[k].len() <= total_len(bodies),
    decreases bodies.len(),
{
    if k == bodies.len() - 1 {
        assert(bodies.take(k) =~= bodies.drop_last());
    } else {
        lemma_take_len_bound(bodies.drop_last(), k);
        assert(bodies.drop_last().take(k) =~= bodies.take(k));
        assert(bodies.drop_last()[k] == bodies[k]);
        assert(bodies.last().len() >= 0);
    }
}

/// Each rule header sits at its own twelve-byte slot.
pub proof fn lemma_headers_bytes_index(bodies: Seq<Seq<u8>>, k: int)
    requires
        0 <= k < bodies.len(),
    ensures
        headers_bytes(bodies).subrange(12 * k, 12 * k + 12) == header_bytes_at(bodies, k),
    decreases bodies.len(),
{
    lemma_headers_bytes_len(bodies);
    if k == bodies.len() - 1 {
        lemma_headers_bytes_len(bodies.drop_last());
        assert(headers_bytes(bodies).subrange(12 * k, 12 * k + 12) =~= header_bytes_at(
            bodies,
            k,
        ));
    } else {
        lemma_headers_bytes_index(bodies.drop_last(), k);
        lemma_headers_bytes_len(bodies.drop_last());
        assert(bodies.drop_last()[k] == bodies[k]);
        assert(bodies.drop_last().take(k) =~= bodies.take(k));
        assert(header_bytes_at(bodies.drop_last(), k) == header_bytes_at(bodies, k));
        assert(headers_bytes(bodies).subrange(12 * k, 12 * k + 12) =~= headers_bytes(
            bodies.drop_last(),
        ).subrange(12 * k, 12 * k + 12));
    }
}

/// Builds the byte image of one set, rule by rule.
pub struct SigSetSerializer {
    pub magic: u32,
    pub sig_headers_vec: Vec<SerSigHeader>,
    pub curr_offset: u32,
    pub signatures: Vec<u8>,
    pub bodies: Ghost<Seq<Seq<u8>>>,
}

impl SigSetSerializer {
    /// The serializer state mirrors the bodies it has taken.
    pub open spec fn wf(&self) -> bool {
        &&& self.sig_headers_vec@.len() == self.bodies@.len()
        &&& self.bodies@.len() <= MAX_SET_ELEMS
        &&& self.signatures@ == concat_bytes(self.bodies@)
        &&& self.curr_offset == total_len(self.bodies@)
        &&& total_len(self.bodies@) + 12 * self.bodies@.len() <= 0x4000_0000
        &&& forall|k: int|
            0 <= k < self.bodies@.len() ==> {
                &&& (#[trigger] self.sig_headers_vec@[k]).id == k as u32
                &&& self.sig_headers_vec@[k].size == self.bodies@[k].len()
                &&& self.sig_headers_vec@[k].offset == total_len(self.bodies@.take(k))
                &&& self.bodies@[k].len() <= MAX_SIG_SIZE
            }
    }

    /// An empty serializer for one set magic.
    pub fn new(magic: u32) -> (r: Self)
        ensures
            r.wf(),
            r.magic == magic,
            r.bodies@ =~= Seq::<Seq<u8>>::empty(),
    {
        let r = Self {
            magic,
            sig_headers_vec: Vec::new(),
            curr_offset: 0,
            signatures: Vec::new(),
            bodies: Ghost(Seq::empty()),
        };
        proof {
            assert(concat_bytes(r.bodies@) =~= Seq::<u8>::empty());
        }
        r
    }

    /// Takes the encoded body of rule `id`, which must arrive in id order.
    pub fn serialize_signature(&mut self, id: SigId, data: Vec<u8>)
        requires
            old(self).wf(),
            id as int == old(self).bodies@.len(),
            old(self).bodies@.len() < MAX_SET_ELEMS,
            data@.len() <= MAX_SIG_SIZE,
            total_len(old(self).bodies@) + data@.len() + 12 * (old(self).bodies@.len() + 1)
                <= 0x4000_0000,
        ensures
            final(self).wf(),
            final(self).magic == old(self).magic,
            final(self).bodies@ == old(self).bodies@.push(data@),
    {
        let ghost d = data@;
        proof {
            lemma_total_len_nonneg(self.bodies@);
            lemma_concat_bytes_len(self.bodies@);
        }
        let size = data.len() as u32;
        self.sig_headers_vec.push(SerSigHeader { id, size, offset: self.curr_offset });
        let mut data = data;
        self.signatures.append(&mut data);
        self.curr_offset = self.signatures.len() as u32;
        self.bodies = Ghost(old(self).bodies@.push(d));
        proof {
            let prev = old(self).bodies@;
            let nb = prev.push(d);
            lemma_concat_push(prev, d);
            assert(nb.drop_last() =~= prev);
            assert(total_len(nb) == total_len(prev) + d.len());
            lemma_concat_bytes_len(nb);
            assert(self.signatures@ == concat_bytes(nb));
            assert forall|k: int| 0 <= k < nb.len() implies {
                &&& (#[trigger] self.sig_headers_vec@[k]).id == k as u32
                &&& self.sig_headers_vec@[k].size == nb[k].len()
                &&& self.sig_headers_vec@[k].offset == total_len(nb.take(k))
                &&& nb[k].len() <= MAX_SIG_SIZE
            } by {
                if k < prev.len() {
                    assert(self.sig_headers_vec@[k] == old(self).sig_headers_vec@[k]);
                    assert(nb[k] == prev[k]);
                    assert(nb.take(k) =~= prev.take(k));
                } else {
                    assert(nb.take(k) =~= prev);
                }
            }
        }
    }

    /// The byte size of the set's data region: headers and bodies.
    pub fn whole_size(&self) -> (r: u32)
        requires
            self.wf(),
        ensures
            r == set_region_size(self.bodies@),
    {
        proof {
            lemma_total_len_nonneg(self.bodies@);
            lemma_concat_bytes_len(self.bodies@);
        }
        let headers_size = self.sig_headers_vec.len() * 12;
        (self.signatures.len() + headers_size) as u32
    }

    /// Lays the set out on disk: magic, checksum over the data region, the
    /// region's size and rule count, and the region itself.
    pub fn serialize(&self) -> (r: Vec<u8>)
        requires
            self.wf(),
        ensures
            r@ == set_bytes(self.magic, self.bodies@),
    {
        proof {
            reveal(set_bytes);
            lemma_total_len_nonneg(self.bodies@);
            lemma_concat_bytes_len(self.bodies@);
            lemma_headers_bytes_len(self.bodies@);
        }
        let whole = self.whole_size();
        let count = self.sig_headers_vec.len() as u32;

        let mut region: Vec<u8> = Vec::new();
        let mut k: usize = 0;
        while k < self.sig_headers_vec.len()
            invariant
                self.wf(),
                k <= self.sig_headers_vec@.len(),
                region@ == headers_bytes(self.bodies@.take(k as int)),
            decreases self.sig_headers_vec@.len() - k,
        {
            let h = &self.sig_headers_vec[k];
            push_u32_le(&mut region, h.id);
            push_u32_le(&mut region, h.size);
            push_u32_le(&mut region, h.offset);
            proof {
                let bs = self.bodies@;
                assert(bs.take(k + 1).drop_last() =~= bs.take(k as int));
                assert(bs.take(k + 1)[k as int] == bs[k as int]);
                assert(bs.take(k + 1).take(k as int) =~= bs.take(k as int));
                assert(header_bytes_at(bs.take(k + 1), k as int) == le_bytes_of_u32(k as u32)
                    + le_bytes_of_u32(bs[k as int].len() as u32) + le_bytes_of_u32(
                    total_len(bs.take(k as int)) as u32,
                ));
                assert(region@ =~= headers_bytes(bs.take(k + 1)));
            }
            k = k + 1;
        }
        proof {
            assert(self.bodies@.take(self.bodies@.len() as int) =~= self.bodies@);
        }
        region.extend_from_slice(self.signatures.as_slice());
        proof {
            assert(region@ =~= set_region_bytes(self.bodies@));
        }

        let mut csin: Vec<u8> = Vec::new();
        push_u32_le(&mut csin, whole);
        push_u32_le(&mut csin, count);
        csin.extend_from_slice(region.as_slice());
        proof {
            assert(csin@ =~= set_checksum_input(self.bodies@));
        }
        let checksum = sha256_from_bytes(csin.as_slice());

        let mut out: Vec<u8> = Vec::new();
        push_u32_le(&mut out, self.magic);
        out.extend_from_slice(checksum.as_slice());
        push_u32_le(&mut out, whole);
        push_u32_le(&mut out, count);
        out.extend_from_slice(region.as_slice());
        proof {
            assert(out@ =~= set_bytes(self.magic, self.bodies@));
        }
        out
    }
}

/// The encoded bodies of a list of rule views.
pub open spec fn views_bodies(views: Seq<SigView>) -> Seq<Seq<u8>> {
    views.map_values(|v: SigView| sig_bytes(v))
}

/// True when a list of rules fits one set on disk: not too many rules, no
/// body over the per-rule cap, the whole region within its bound.
pub open spec fn serializable(views: Seq<SigView>) -> bool {
    &&& views.len() <= MAX_SET_ELEMS
    &&& (forall|k: int|
        0 <= k < views.len() ==> sig_bytes(#[trigger] views[k]).len() <= MAX_SIG_SIZE)
    &&& set_region_size(views_bodies(views)) <= 0x4000_0000
}

/// Takes the encoded body of rule `k` of a view list; fails exactly where
/// the list cannot fit one set on disk.
pub fn push_body(
    ser: &mut SigSetSerializer,
    k: usize,
    body: Vec<u8>,
    views: Ghost<Seq<SigView>>,
) -> (r: Result<(), SigSetError>)
    requires
        old(ser).wf(),
        old(ser).bodies@ == views_bodies(views@.take(k as int)),
        k < views@.len(),
        body@ == sig_bytes(views@[k as int]),
    ensures
        r is Ok ==> final(ser).wf() && final(ser).magic == old(ser).magic && final(ser).bodies@
            == views_bodies(views@.take(k + 1)) && sig_bytes(views@[k as int]).len()
            <= MAX_SIG_SIZE,
        r is Err ==> !serializable(views@),
        r matches Err(e) ==> e is IncorrectSignatureSizeError,
{
    proof {
        lemma_total_len_nonneg(ser.bodies@);
        lemma_concat_bytes_len(ser.bodies@);
        assert(views_bodies(views@.take(k as int)).len() == k);
    }
    if body.len() > MAX_SIG_SIZE as usize {
        proof {
            assert(sig_bytes(views@[k as int]).len() > MAX_SIG_SIZE);
        }
        return Err(SigSetError::IncorrectSignatureSizeError { size: MAX_SIG_SIZE });
    }
    if k >= MAX_SET_ELEMS as usize {
        proof {
            assert(views@.len() > MAX_SET_ELEMS);
        }
        return Err(SigSetError::IncorrectSignatureSizeError { size: MAX_SET_ELEMS });
    }
    let room = (ser.signatures.len() as u64) + (body.len() as u64) + 12 * ((k as u64) + 1);
    if room > 0x4000_0000 {
        proof {
            lemma_not_serializable(views@, k as int);
        }
        return Err(SigSetError::IncorrectSignatureSizeError { size: MAX_SIG_SIZE });
    }
    ser.serialize_signature(k as u32, body);
    proof {
        assert(views_bodies(views@.take(k + 1)) =~= views_bodies(views@.take(k as int)).push(
            sig_bytes(views@[k as int]),
        ));
    }
    Ok(())
}

/// Where the bytes up to rule `k` already overrun the region bound, the
/// whole list cannot fit.
proof fn lemma_not_serializable(views: Seq<SigView>, k: int)
    requires
        0 <= k < views.len(),
        total_len(views_bodies(views.take(k))) + sig_bytes(views[k]).len() + 12 * (k + 1)
            > 0x4000_0000,
    ensures
        !serializable(views),
{
    let bodies = views_bodies(views);
    assert(bodies.take(k) =~= views_bodies(views.take(k)));
    assert(bodies[k] == sig_bytes(views[k]));
    lemma_take_len_bound(bodies, k);
    lemma_total_len_nonneg(bodies.take(k));
    assert(set_region_size(bodies) >= total_len(bodies.take(k)) + bodies[k].len() + 12 * (k + 1));
}

/// A serializer that took every body of a list shows the list fits.
pub proof fn lemma_serializable_from_wf(ser: &SigSetSerializer, views: Seq<SigView>)
    requires
        ser.wf(),
        ser.bodies@ == views_bodies(views),
    ensures
        serializable(views),
{
    assert(views_bodies(views).len() == views.len());
    assert forall|k: int| 0 <= k < views.len() implies sig_bytes(#[trigger] views[k]).len()
        <= MAX_SIG_SIZE by {
        assert(views_bodies(views)[k] == sig_bytes(views[k]));
        assert(ser.bodies@[k] == sig_bytes(views[k]));
        assert(ser.sig_headers_vec@[k].size == ser.bodies@[k].len());
        assert(ser.bodies@[k].len() <= MAX_SIG_SIZE);
    }
}

} // verus!