//! The exact content-hash matcher: a list of file digests with the rule
//! each belongs to.
use vstd::prelude::*;

use crate::detection::{report_from_signature, DetectionReport};
use crate::hashing::{sha256_eq, Sha256Buff};
use crate::sig_set::signature::{encode_signature, sig_bytes, Signature, SigView};
use crate::sig_set::sigset_serializer::{
    lemma_serializable_from_wf, push_body, serializable, views_bodies, SigSetSerializer,
    MAX_SIG_SIZE,
};
use crate::sig_set::SigSetError;

verus! {

/// A set of exact content-hash rules: parallel lists of digest, rule name
/// and rule description.
pub struct ShaSet {
    pub shas: Vec<Sha256Buff>,
    pub names: Vec<String>,
    pub descriptions: Vec<String>,
}

impl ShaSet {
    /// How many rules the set holds.
    pub open spec fn sig_count(&self) -> int {
        self.shas@.len() as int
    }

    /// The digest of entry `i`.
    pub open spec fn sha_at(&self, i: int) -> Seq<u8> {
        self.shas@[i]@
    }

    /// The rule name of entry `i`.
    pub open spec fn name_at(&self, i: int) -> Seq<char> {
        self.names@[i]@
    }

    /// The rule description of entry `i`.
    pub open spec fn description_at(&self, i: int) -> Seq<char> {
        self.descriptions@[i]@
    }

    /// True when some entry holds the digest.
    pub open spec fn contains_sha(&self, h: Seq<u8>) -> bool {
        exists|i: int| 0 <= i < self.sig_count() && self.sha_at(i) == h
    }

    /// The set is consistent: parallel lists of one length, distinct
    /// digests.
    pub open spec fn wf(&self) -> bool {
        &&& self.shas@.len() == self.names@.len()
        &&& self.shas@.len() == self.descriptions@.len()
        &&& forall|i: int, j: int|
            0 <= i < j < self.sig_count() ==> self.sha_at(i) != self.sha_at(j)
    }

    /// An empty set; every set of exact hashes carries the same magic.
    pub fn new_empty(_magic: u32) -> (r: Self)
        ensures
            r.wf(),
            r.sig_count() == 0,
    {
        Self { shas: Vec::new(), names: Vec::new(), descriptions: Vec::new() }
    }

    /// How many rules the set holds.
    pub fn signatures_number(&self) -> (r: usize)
        ensures
            r == self.sig_count(),
    {
        self.shas.len()
    }

    /// The entry holding a digest, where one exists.
    fn find_sha(&self, h: &Sha256Buff) -> (r: Option<usize>)
        ensures
            r matches Some(i) ==> i < self.sig_count() && self.sha_at(i as int) == h@,
            r is None ==> !self.contains_sha(h@),
    {
        let mut i: usize = 0;
        while i < self.shas.len()
            invariant
                i <= self.shas@.len(),
                forall|j: int| 0 <= j < i ==> self.sha_at(j) != h@,
            decreases self.shas@.len() - i,
        {
            if sha256_eq(&self.shas[i], h) {
                return Some(i);
            }
            i = i + 1;
        }
        None
    }

    /// The rule whose digest equals the candidate, where the set holds one.
    pub fn match_(&self, sha: &Sha256Buff) -> (r: Result<Option<Signature>, SigSetError>)
        requires
            self.wf(),
        ensures
            r is Ok,
            r matches Ok(opt) ==> {
                &&& (opt is Some <==> self.contains_sha(sha@))
                &&& (opt matches Some(sig) ==> exists|i: int|
                    {
                        &&& 0 <= i < self.sig_count()
                        &&& #[trigger] self.sha_at(i) == sha@
                        &&& sig@.name == self.name_at(i)
                        &&& sig@.description == self.description_at(i)
                        &&& sig@.kind == 0
                        &&& sig@.hashes == seq![sha@]
                    })
            },
    {
        match self.find_sha(sha) {
            Some(i) => {
                let sig = Signature::new_sha(
                    self.names[i].clone(),
                    self.descriptions[i].clone(),
                    *sha,
                );
                Ok(Some(sig))
            },
            None => Ok(None),
        }
    }

    /// Adds a content-hash rule. A digest already present keeps one entry:
    /// the new rule's name and description replace the old.
    pub fn append_signature(&mut self, _sig_id: u32, sig_sha: Signature)
        requires
            old(self).wf(),
            sig_sha@.kind == 0,
        ensures
            final(self).wf(),
            final(self).contains_sha(sig_sha@.hashes[0]),
            !old(self).contains_sha(sig_sha@.hashes[0]) ==> {
                &&& final(self).sig_count() == old(self).sig_count() + 1
                &&& (forall|i: int|
                    0 <= i < old(self).sig_count() ==> (#[trigger] final(self).sha_at(i)
                        == old(self).sha_at(i) && final(self).name_at(i) == old(self).name_at(i)
                        && final(self).description_at(i) == old(self).description_at(i)))
                &&& final(self).sha_at(old(self).sig_count()) == sig_sha@.hashes[0]
                &&& final(self).name_at(old(self).sig_count()) == sig_sha@.name
                &&& final(self).description_at(old(self).sig_count()) == sig_sha@.description
            },
            old(self).contains_sha(sig_sha@.hashes[0]) ==> {
                &&& final(self).sig_count() == old(self).sig_count()
                &&& (forall|i: int|
                    0 <= i < old(self).sig_count() ==> (#[trigger] final(self).sha_at(i)
                        == old(self).sha_at(i)))
                &&& exists|i: int|
                    {
                        &&& 0 <= i < old(self).sig_count()
                        &&& #[trigger] old(self).sha_at(i) == sig_sha@.hashes[0]
                        &&& final(self).name_at(i) == sig_sha@.name
                        &&& final(self).description_at(i) == sig_sha@.description
                        &&& (forall|j: int|
                            0 <= j < old(self).sig_count() && j != i ==> ((
                            #[trigger] final(self).name_at(j)) == old(self).name_at(j) && final(
                                self).description_at(j) == old(self).description_at(j)))
                    }
            },
    {
        let sha = match &sig_sha.data {
            crate::sig_set::signature::SigData::Sha(b) => *b,
            _ => [0u8; 32],
        };
        proof {
            assert(sha@ == sig_sha@.hashes[0]);
        }
        let Signature { base, data: _ } = sig_sha;
        match self.find_sha(&sha) {
            Some(i) => {
                self.names[i] = base.name;
                self.descriptions[i] = base.description;
                proof {
                    assert(self.shas@ == old(self).shas@);
                    assert(self.sha_at(i as int) == sha@);
                    assert forall|j1: int, j2: int|
                        0 <= j1 < j2 < self.sig_count() implies self.sha_at(j1) != self.sha_at(
                        j2,
                    ) by {
                        assert(self.sha_at(j1) == old(self).sha_at(j1));
                        assert(self.sha_at(j2) == old(self).sha_at(j2));
                    }
                    assert forall|j: int|
                        0 <= j < old(self).sig_count() && j != i as int implies ((
                    #[trigger] self.name_at(j)) == old(self).name_at(j) && self.description_at(j)
                        == old(self).description_at(j)) by {}
                }
            },
            None => {
                self.shas.push(sha);
                self.names.push(base.name);
                self.descriptions.push(base.description);
                proof {
                    assert(self.sha_at(old(self).sig_count()) == sha@);
                    assert forall|i: int, j: int|
                        0 <= i < j < self.sig_count() implies self.sha_at(i) != self.sha_at(
                        j,
                    ) by {
                        assert(self.sha_at(i) == old(self).sha_at(i));
                        if j == old(self).sig_count() {
                            assert(!old(self).contains_sha(sha@));
                            if old(self).sha_at(i) == sha@ {
                                assert(old(self).contains_sha(sha@));
                            }
                        } else {
                            assert(self.sha_at(j) == old(self).sha_at(j));
                        }
                    }
                }
            },
        }
    }

    /// Evaluates a hash list: the last element is the candidate, as the
    /// sandboxed-file pipeline hands a single terminal hash at the end of
    /// its list. An empty list matches nothing.
    pub fn eval_vec(&self, sha_vec: Vec<Sha256Buff>) -> (r: Result<
        Option<DetectionReport>,
        SigSetError,
    >)
        requires
            self.wf(),
        ensures
            r is Ok,
            r matches Ok(opt) ==> {
                &&& (opt is Some <==> sha_vec@.len() > 0 && self.contains_sha(
                    sha_vec@.last()@,
                ))
                &&& (opt matches Some(rep) ==> exists|i: int|
                    {
                        &&& 0 <= i < self.sig_count()
                        &&& #[trigger] self.sha_at(i) == sha_vec@.last()@
                        &&& rep.name@ == self.name_at(i)
                        &&& rep.desc@ == self.description_at(i)
                    })
            },
    {
        let mut sha_vec = sha_vec;
        let sha256 = match sha_vec.pop() {
            Some(s) => s,
            None => {
                return Ok(None);
            },
        };
        match self.match_(&sha256) {
            Ok(Some(sig)) => Ok(Some(report_from_signature(sig))),
            Ok(None) => Ok(None),
            Err(e) => Err(e),
        }
    }
}

/// The rules a content-hash set holds, as views, in entry order.
pub open spec fn sha_set_views(s: &ShaSet) -> Seq<SigView> {
    Seq::new(
        s.sig_count() as nat,
        |k: int| SigView {
            name: s.name_at(k),
            description: s.description_at(k),
            kind: 0,
            hashes: seq![s.sha_at(k)],
        },
    )
}

impl ShaSet {
    /// Hands every rule of the set to a serializer, in entry order; fails
    /// exactly where a rule body outgrows the per-rule cap or the set
    /// outgrows the region bound.
    pub fn to_set_serializer(&self) -> (r: Result<SigSetSerializer, SigSetError>)
        requires
            self.wf(),
        ensures
            r matches Ok(ser) ==> ser.wf() && ser.magic == crate::sig_set::SET_MAGIC_U32
                && ser.bodies@ == views_bodies(sha_set_views(self)),
            r is Ok <==> serializable(sha_set_views(self)),
    {
        let mut ser = SigSetSerializer::new(crate::sig_set::SET_MAGIC_U32);
        let ghost views = sha_set_views(self);
        proof {
            assert(views_bodies(views.take(0)) =~= Seq::<Seq<u8>>::empty());
        }
        let mut k: usize = 0;
        while k < self.shas.len()
            invariant
                self.wf(),
                k <= self.sig_count(),
                views == sha_set_views(self),
                ser.wf(),
                ser.magic == crate::sig_set::SET_MAGIC_U32,
                ser.bodies@ == views_bodies(views.take(k as int)),
            decreases self.sig_count() - k,
        {
            let sig = Signature::new_sha(
                self.names[k].clone(),
                self.descriptions[k].clone(),
                self.shas[k],
            );
            proof {
                assert(sig@ == views[k as int]);
            }
            push_body(&mut ser, k, encode_signature(&sig), Ghost(views))?;
            k = k + 1;
        }
        proof {
            assert(views.take(views.len() as int) =~= views);
            lemma_serializable_from_wf(&ser, views);
        }
        Ok(ser)
    }
}

} // verus!
