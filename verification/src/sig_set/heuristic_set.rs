//! The bitmap multi-predicate matcher: each rule demands that all of its
//! predicate hashes appear among the observations; an inverted index of
//! bitmaps answers which rule is fully met.
use vstd::prelude::*;

use crate::detection::{report_from_signature, DetectionReport};
use crate::hasher::sha_list_view;
use crate::hashing::{sha256_eq, Sha256Buff};
use crate::sig_set::signature::{encode_signature, SigId, Signature, SigView};
use crate::sig_set::sigset_serializer::{
    lemma_serializable_from_wf, push_body, serializable, views_bodies, SigSetSerializer,
};
use crate::sig_set::{heur_kind_magic, kind_of_magic, SigSetError, DYN_MAGIC_U32, HEUR_MAGIC_U32};

verus! {

/// True when `obs` holds the hash `h`.
pub open spec fn seq_contains_hash(obs: Seq<Seq<u8>>, h: Seq<u8>) -> bool {
    exists|k: int| 0 <= k < obs.len() && obs[k] == h
}

/// True when every predicate of the list appears among the observations.
pub open spec fn rule_matches(preds: Seq<Seq<u8>>, obs: Seq<Seq<u8>>) -> bool {
    forall|k: int| 0 <= k < preds.len() ==> seq_contains_hash(obs, #[trigger] preds[k])
}

/// Bit `i` of a rule bitmap.
pub open spec fn bit(m: u32, i: u32) -> bool
    recommends
        i < 32,
{
    (m >> i) & 1u32 == 1u32
}

/// The mask with exactly the lowest `n` bits set.
pub open spec fn mask_below(n: u32) -> u32
    recommends
        n <= 32,
{
    if n >= 32 {
        0xFFFF_FFFFu32
    } else {
        ((1u32 << n) - 1) as u32
    }
}

proof fn lemma_bit_or(a: u32, b: u32)
    by (bit_vector)
    ensures
        forall|i: u32| i < 32 ==> #[trigger] bit(a | b, i) == (bit(a, i) || bit(b, i)),
{
}

proof fn lemma_bit_zero()
    by (bit_vector)
    ensures
        forall|i: u32| i < 32 ==> !bit(0u32, i),
{
}

proof fn lemma_bit_single(s: u32)
    by (bit_vector)
    requires
        s < 32,
    ensures
        forall|i: u32| i < 32 ==> #[trigger] bit(1u32 << s, i) == (i == s),
{
}

proof fn lemma_bit_hit(acc: u32, n: u32)
    by (bit_vector)
    requires
        n <= 32,
    ensures
        forall|i: u32| i < 32 ==> #[trigger] bit(!acc & mask_below(n), i) == (i < n && !bit(
            acc,
            i,
        )),
{
}

/// A set of multi-predicate rules and the inverted index over their
/// predicates: `pred_masks[j]` has bit `i` set exactly when rule `i`
/// requires predicate `pred_keys[j]`.
pub struct HeurSet {
    pub magic: u32,
    pub names: Vec<String>,
    pub descriptions: Vec<String>,
    pub hashes: Vec<Vec<Sha256Buff>>,
    pub pred_keys: Vec<Sha256Buff>,
    pub pred_masks: Vec<u32>,
}

impl HeurSet {
    /// How many rules the set holds.
    pub open spec fn sig_count(&self) -> int {
        self.names@.len() as int
    }

    /// The name of rule `i`.
    pub open spec fn sig_name(&self, i: int) -> Seq<char> {
        self.names@[i]@
    }

    /// The description of rule `i`.
    pub open spec fn sig_description(&self, i: int) -> Seq<char> {
        self.descriptions@[i]@
    }

    /// The predicate hashes of rule `i`.
    pub open spec fn sig_preds(&self, i: int) -> Seq<Seq<u8>> {
        sha_list_view(self.hashes@[i]@)
    }

    /// True when rule `i` is fully met by the observations.
    pub open spec fn matches_at(&self, obs: Seq<Seq<u8>>, i: int) -> bool {
        rule_matches(self.sig_preds(i), obs)
    }

    /// The set is consistent: one of the three bitmap-set magics, at most
    /// thirty-two rules, distinct index keys, bitmaps that mirror the
    /// rules' predicate lists, and every predicate present among the keys.
    pub open spec fn wf(&self) -> bool {
        &&& heur_kind_magic(self.magic)
        &&& self.names@.len() == self.descriptions@.len()
        &&& self.names@.len() == self.hashes@.len()
        &&& self.names@.len() <= 32
        &&& self.pred_keys@.len() == self.pred_masks@.len()
        &&& forall|j1: int, j2: int|
            0 <= j1 < j2 < self.pred_keys@.len() ==> (#[trigger] self.pred_keys@[j1])@ != (
            #[trigger] self.pred_keys@[j2])@
        &&& forall|j: int, i: u32|
            0 <= j < self.pred_keys@.len() && i < self.sig_count() ==> (#[trigger] bit(
                self.pred_masks@[j],
                i,
            ) <==> seq_contains_hash(self.sig_preds(i as int), self.pred_keys@[j]@))
        &&& forall|j: int, i: u32|
            0 <= j < self.pred_keys@.len() && self.sig_count() <= i < 32 ==> !(#[trigger] bit(
                self.pred_masks@[j],
                i,
            ))
        &&& forall|i: int, k: int|
            0 <= i < self.sig_count() && 0 <= k < self.sig_preds(i).len()
                ==> seq_contains_hash(
                sha_list_view(self.pred_keys@),
                #[trigger] self.sig_preds(i)[k],
            )
    }

    /// An empty set for the given magic.
    pub fn new_empty(magic: u32) -> (r: Self)
        requires
            heur_kind_magic(magic),
        ensures
            r.wf(),
            r.sig_count() == 0,
            r.magic == magic,
    {
        Self {
            magic,
            names: Vec::new(),
            descriptions: Vec::new(),
            hashes: Vec::new(),
            pred_keys: Vec::new(),
            pred_masks: Vec::new(),
        }
    }

    /// How many rules the set holds.
    pub fn signatures_number(&self) -> (r: usize)
        ensures
            r == self.sig_count(),
    {
        self.names.len()
    }

    /// The index slot of a predicate hash, where one exists.
    fn find_pred(&self, h: &Sha256Buff) -> (r: Option<usize>)
        ensures
            r matches Some(j) ==> j < self.pred_keys@.len() && (self.pred_keys@[j as int])@ == h@,
            r is None ==> forall|j: int|
                0 <= j < self.pred_keys@.len() ==> (#[trigger] self.pred_keys@[j])@ != h@,
    {
        let mut j: usize = 0;
        while j < self.pred_keys.len()
            invariant
                j <= self.pred_keys@.len(),
                forall|jj: int| 0 <= jj < j ==> (#[trigger] self.pred_keys@[jj])@ != h@,
            decreases self.pred_keys@.len() - j,
        {
            if sha256_eq(&self.pred_keys[j], h) {
                return Some(j);
            }
            j = j + 1;
        }
        None
    }

    /// The rule of lowest id whose predicates all appear among the observed
    /// hashes, reconstructed from the set; no rule means no match.
    pub fn match_(&self, sha_vec: &Vec<Sha256Buff>) -> (r: Result<Option<Signature>, SigSetError>)
        requires
            self.wf(),
        ensures
            r is Ok,
            r matches Ok(opt) ==> {
                let obs = sha_list_view(sha_vec@);
                &&& (opt is Some <==> exists|i: int|
                    0 <= i < self.sig_count() && self.matches_at(obs, i))
                &&& (opt matches Some(sig) ==> exists|i: int|
                    {
                        &&& 0 <= i < self.sig_count()
                        &&& #[trigger] self.matches_at(obs, i)
                        &&& forall|j: int| 0 <= j < i ==> !self.matches_at(obs, j)
                        &&& sig@.name == self.sig_name(i)
                        &&& sig@.description == self.sig_description(i)
                        &&& sig@.hashes == self.sig_preds(i)
                        &&& sig@.kind == (if self.magic == HEUR_MAGIC_U32 {
                            1int
                        } else if self.magic == DYN_MAGIC_U32 {
                            2int
                        } else {
                            3int
                        })
                    })
            },
    {
        let ghost obs = sha_list_view(sha_vec@);
        let n = self.names.len();

        // Clear the slot of every observed predicate: once a predicate is
        // seen, no rule still waits for it.
        let mut remaining: Vec<u32> = self.pred_masks.clone();
        let mut t: usize = 0;
        while t < sha_vec.len()
            invariant
                t <= sha_vec@.len(),
                obs == sha_list_view(sha_vec@),
                self.wf(),
                remaining@.len() == self.pred_masks@.len(),
                forall|j: int|
                    0 <= j < remaining@.len() ==> #[trigger] remaining@[j] == (
                    if seq_contains_hash(obs.take(t as int), self.pred_keys@[j]@) {
                        0u32
                    } else {
                        self.pred_masks@[j]
                    }),
            decreases sha_vec@.len() - t,
        {
            let ghost prev = remaining@;
            let found = self.find_pred(&sha_vec[t]);
            match found {
                Some(j) => {
                    remaining[j] = 0;
                },
                None => {},
            }
            proof {
                assert(obs.take(t + 1) =~= obs.take(t as int).push(obs[t as int]));
                assert(obs[t as int] == sha_vec@[t as int]@);
                assert forall|j: int| 0 <= j < remaining@.len() implies #[trigger] remaining@[j]
                    == (if seq_contains_hash(obs.take(t + 1), self.pred_keys@[j]@) {
                    0u32
                } else {
                    self.pred_masks@[j]
                }) by {
                    let key = self.pred_keys@[j]@;
                    match found {
                        Some(j0) => {
                            assert(self.pred_keys@[j0 as int]@ == obs[t as int]);
                            if j == j0 as int {
                                assert(remaining@[j] == 0u32);
                                assert(obs.take(t + 1)[t as int] == key);
                                assert(seq_contains_hash(obs.take(t + 1), key));
                            } else {
                                assert(remaining@[j] == prev[j]);
                                assert(key != obs[t as int]);
                                if seq_contains_hash(obs.take(t + 1), key) {
                                    let w = choose|w: int|
                                        0 <= w < obs.take(t + 1).len() && #[trigger] obs.take(
                                            t + 1,
                                        )[w] == key;
                                    assert(obs.take(t as int)[w] == key);
                                    assert(seq_contains_hash(obs.take(t as int), key));
                                }
                            }
                        },
                        None => {
                            assert(key != obs[t as int]);
                            if seq_contains_hash(obs.take(t + 1), key) {
                                let w = choose|w: int|
                                    0 <= w < obs.take(t + 1).len() && #[trigger] obs.take(
                                        t + 1,
                                    )[w] == key;
                                assert(obs.take(t as int)[w] == key);
                                assert(seq_contains_hash(obs.take(t as int), key));
                            }
                        },
                    }
                }
            }
            t = t + 1;
        }
        proof {
            assert(obs.take(sha_vec@.len() as int) =~= obs);
        }

        // Fold the still-unmet bitmaps together: bit i stays set while some
        // predicate of rule i is unobserved.
        let mut acc: u32 = 0;
        let mut j: usize = 0;
        proof {
            lemma_bit_zero();
        }
        while j < remaining.len()
            invariant
                j <= remaining@.len(),
                forall|i: u32|
                    i < 32 ==> (#[trigger] bit(acc, i) <==> exists|jj: int|
                        0 <= jj < j && bit(#[trigger] remaining@[jj], i)),
            decreases remaining@.len() - j,
        {
            proof {
                lemma_bit_or(acc, remaining@[j as int]);
            }
            acc = acc | remaining[j];
            j = j + 1;
        }

        // A cleared bit among the first n means a fully met rule.
        let nn = n as u32;
        proof {
            assert(nn < 32 ==> (1u32 << nn) >= 1u32) by (bit_vector);
        }
        let mask: u32 = if n >= 32 {
            0xFFFF_FFFF
        } else {
            (1u32 << nn) - 1
        };
        let hit: u32 = !acc & mask;
        proof {
            assert(mask == mask_below(nn));
            lemma_bit_hit(acc, nn);
            assert forall|i: u32| i < nn implies (!bit(acc, i) <==> self.matches_at(
                obs,
                i as int,
            )) by {
                self.lemma_acc_meaning(obs, remaining@, acc, i);
            }
            assert forall|ii: u32| ii < 32 implies #[trigger] bit(hit, ii) == (ii < nn
                && self.matches_at(obs, ii as int)) by {
                assert(bit(hit, ii) == (ii < nn && !bit(acc, ii)));
            }
        }
        if hit == 0 {
            proof {
                lemma_bit_zero();
                assert forall|i: int| 0 <= i < self.sig_count() implies !self.matches_at(
                    obs,
                    i,
                ) by {
                    assert(bit(hit, i as u32) == (i < self.sig_count() && self.matches_at(
                        obs,
                        i,
                    )));
                    assert(!bit(0u32, i as u32));
                }
            }
            return Ok(None);
        }

        // Tie-break: the lowest cleared bit names the matched rule.
        let mut i: usize = 0;
        while i < n
            invariant
                i <= n,
                n <= 32,
                n == self.sig_count(),
                self.wf(),
                obs == sha_list_view(sha_vec@),
                forall|ii: u32|
                    ii < 32 ==> (#[trigger] bit(hit, ii) == (ii < n && self.matches_at(
                        obs,
                        ii as int,
                    ))),
                forall|jj: int| 0 <= jj < i ==> !self.matches_at(obs, jj),
            decreases n - i,
        {
            if (hit >> (i as u32)) & 1 == 1 {
                proof {
                    assert(bit(hit, i as u32));
                }
                let sig = Signature::new_heur(
                    self.names[i].clone(),
                    self.descriptions[i].clone(),
                    self.hashes[i].clone(),
                    self.magic,
                );
                return Ok(Some(sig));
            }
            proof {
                assert(!bit(hit, i as u32));
            }
            i = i + 1;
        }
        proof {
            assert forall|ii: int| 0 <= ii < self.sig_count() implies !self.matches_at(
                obs,
                ii,
            ) by {}
        }
        Ok(None)
    }

    /// Why a cleared accumulator bit is exactly a full match: bit i of the
    /// fold is set while some predicate of rule i is unobserved.
    proof fn lemma_acc_meaning(&self, obs: Seq<Seq<u8>>, remaining: Seq<u32>, acc: u32, i: u32)
        requires
            self.wf(),
            i < self.sig_count(),
            remaining.len() == self.pred_masks@.len(),
            forall|j: int|
                0 <= j < remaining.len() ==> #[trigger] remaining[j] == (if seq_contains_hash(
                    obs,
                    self.pred_keys@[j]@,
                ) {
                    0u32
                } else {
                    self.pred_masks@[j]
                }),
            forall|ii: u32|
                ii < 32 ==> (#[trigger] bit(acc, ii) <==> exists|jj: int|
                    0 <= jj < remaining.len() && bit(#[trigger] remaining[jj], ii)),
        ensures
            !bit(acc, i) <==> self.matches_at(obs, i as int),
    {
        lemma_bit_zero();
        if bit(acc, i) {
            let jj = choose|jj: int| 0 <= jj < remaining.len() && bit(remaining[jj], i);
            assert(bit(remaining[jj], i));
            assert(remaining[jj] != 0u32);
            assert(!seq_contains_hash(obs, self.pred_keys@[jj]@));
            assert(bit(self.pred_masks@[jj], i));
            assert(seq_contains_hash(self.sig_preds(i as int), self.pred_keys@[jj]@));
            let k = choose|k: int|
                0 <= k < self.sig_preds(i as int).len() && self.sig_preds(i as int)[k]
                    == self.pred_keys@[jj]@;
            assert(!seq_contains_hash(obs, self.sig_preds(i as int)[k]));
            assert(!self.matches_at(obs, i as int));
        } else {
            assert forall|k: int| 0 <= k < self.sig_preds(i as int).len() implies seq_contains_hash(
                obs,
                #[trigger] self.sig_preds(i as int)[k],
            ) by {
                let h = self.sig_preds(i as int)[k];
                assert(seq_contains_hash(sha_list_view(self.pred_keys@), h));
                let j = choose|j: int|
                    0 <= j < sha_list_view(self.pred_keys@).len() && sha_list_view(
                        self.pred_keys@,
                    )[j] == h;
                assert(self.pred_keys@[j]@ == h);
                assert(bit(self.pred_masks@[j], i));
                if !seq_contains_hash(obs, self.pred_keys@[j]@) {
                    assert(remaining[j] == self.pred_masks@[j]);
                    assert(bit(remaining[j], i));
                    assert(bit(acc, i));
                }
            }
        }
    }

    /// Adds rule `sig_id` to the set, wiring each of its predicates into
    /// the index.
    pub fn append_signature(&mut self, sig_id: SigId, signature: Signature)
        requires
            old(self).wf(),
            sig_id as int == old(self).sig_count(),
            signature@.kind != 0,
            old(self).sig_count() < 32,
        ensures
            final(self).wf(),
            final(self).magic == old(self).magic,
            final(self).sig_count() == old(self).sig_count() + 1,
            forall|i: int|
                0 <= i < old(self).sig_count() ==> #[trigger] final(self).sig_name(i) == old(
                    self,
                ).sig_name(i) && final(self).sig_description(i) == old(self).sig_description(i)
                    && final(self).sig_preds(i) == old(self).sig_preds(i),
            final(self).sig_name(sig_id as int) == signature@.name,
            final(self).sig_description(sig_id as int) == signature@.description,
            final(self).sig_preds(sig_id as int) == signature@.hashes,
    {
        let s = sig_id;
        let ghost sv = signature@;
        let imports = match signature.data.get_sha_vec() {
            Some(v) => v,
            None => Vec::new(),
        };
        let ghost imps = imports@;
        proof {
            lemma_bit_single(s);
            assert(sha_list_view(imports@) == sv.hashes);
            assert(imports@.take(0) =~= Seq::<crate::hashing::Sha256Buff>::empty());
        }
        let mut k: usize = 0;
        while k < imports.len()
            invariant
                k <= imports@.len(),
                s < 32,
                s as int == self.sig_count(),
                self.names@ == old(self).names@,
                self.descriptions@ == old(self).descriptions@,
                self.hashes@ == old(self).hashes@,
                self.magic == old(self).magic,
                old(self).wf(),
                self.pred_keys@.len() == self.pred_masks@.len(),
                forall|j1: int, j2: int|
                    0 <= j1 < j2 < self.pred_keys@.len() ==> (#[trigger] self.pred_keys@[j1])@ != (
                    #[trigger] self.pred_keys@[j2])@,
                forall|j: int, i: u32|
                    0 <= j < self.pred_keys@.len() && i < s ==> (#[trigger] bit(
                        self.pred_masks@[j],
                        i,
                    ) <==> seq_contains_hash(old(self).sig_preds(i as int), self.pred_keys@[j]@)),
                forall|j: int, i: u32|
                    0 <= j < self.pred_keys@.len() && s < i < 32 ==> !(#[trigger] bit(
                        self.pred_masks@[j],
                        i,
                    )),
                forall|i: int, kk: int|
                    0 <= i < s && 0 <= kk < old(self).sig_preds(i).len() ==> seq_contains_hash(
                        sha_list_view(self.pred_keys@),
                        #[trigger] old(self).sig_preds(i)[kk],
                    ),
                forall|j: int|
                    0 <= j < self.pred_keys@.len() ==> (#[trigger] bit(self.pred_masks@[j], s)
                        <==> seq_contains_hash(
                        sha_list_view(imports@.take(k as int)),
                        self.pred_keys@[j]@,
                    )),
                forall|kk: int|
                    0 <= kk < k ==> seq_contains_hash(
                        sha_list_view(self.pred_keys@),
                        (#[trigger] imports@[kk])@,
                    ),
            decreases imports@.len() - k,
        {
            let import_mask: u32 = 1u32 << s;
            let ghost prev_keys = self.pred_keys@;
            let ghost prev_masks = self.pred_masks@;
            let found = self.find_pred(&imports[k]);
            match found {
                None => {
                    self.pred_keys.push(imports[k]);
                    self.pred_masks.push(import_mask);
                },
                Some(j) => {
                    let updated = self.pred_masks[j] | import_mask;
                    self.pred_masks[j] = updated;
                },
            }
            proof {
                lemma_bit_single(s);
                let newi = imports@[k as int]@;
                let old_obs = sha_list_view(imports@.take(k as int));
                let new_obs = sha_list_view(imports@.take(k + 1));
                assert(new_obs =~= old_obs.push(newi));
                match found {
                    None => {
                        let jn = prev_keys.len() as int;
                        assert(self.pred_keys@ =~= prev_keys.push(imports@[k as int]));
                        assert(self.pred_masks@ =~= prev_masks.push(import_mask));
                        assert(bit(import_mask, s));
                        assert(forall|i: u32| i < 32 && i != s ==> !bit(import_mask, i));
                        // The fresh key equals no earlier key, so uniqueness
                        // and the earlier bitmap rows carry over, and no old
                        // rule requires it.
                        assert forall|j: int, i: u32|
                            0 <= j < self.pred_keys@.len() && i < s implies (#[trigger] bit(
                            self.pred_masks@[j],
                            i,
                        ) <==> seq_contains_hash(
                            old(self).sig_preds(i as int),
                            self.pred_keys@[j]@,
                        )) by {
                            if j < jn {
                                assert(self.pred_masks@[j] == prev_masks[j]);
                                assert(self.pred_keys@[j] == prev_keys[j]);
                                assert(bit(prev_masks[j], i) <==> seq_contains_hash(
                                    old(self).sig_preds(i as int),
                                    (prev_keys[j])@,
                                ));
                            } else {
                                assert(self.pred_keys@[j]@ == newi);
                                assert(self.pred_masks@[j] == import_mask);
                                assert(!bit(self.pred_masks@[j], i));
                                if seq_contains_hash(old(self).sig_preds(i as int), newi) {
                                    let kk = choose|kk: int|
                                        0 <= kk < old(self).sig_preds(i as int).len()
                                            && #[trigger] old(self).sig_preds(i as int)[kk]
                                            == newi;
                                    assert(seq_contains_hash(sha_list_view(prev_keys), newi));
                                    let jw = choose|jw: int|
                                        0 <= jw < sha_list_view(prev_keys).len()
                                            && #[trigger] sha_list_view(prev_keys)[jw] == newi;
                                    assert((prev_keys[jw])@ == newi);
                                }
                            }
                        }
                        assert forall|j: int|
                            0 <= j < self.pred_keys@.len() implies (#[trigger] bit(
                            self.pred_masks@[j],
                            s,
                        ) <==> seq_contains_hash(new_obs, self.pred_keys@[j]@)) by {
                            if j < jn {
                                assert(self.pred_masks@[j] == prev_masks[j]);
                                assert(self.pred_keys@[j] == prev_keys[j]);
                                let key = (prev_keys[j])@;
                                assert(bit(prev_masks[j], s) <==> seq_contains_hash(
                                    old_obs,
                                    key,
                                ));
                                assert(key != newi);
                                if seq_contains_hash(new_obs, key) {
                                    let w = choose|w: int|
                                        0 <= w < new_obs.len() && #[trigger] new_obs[w] == key;
                                    assert(old_obs[w] == key);
                                    assert(seq_contains_hash(old_obs, key));
                                }
                                if seq_contains_hash(old_obs, key) {
                                    let w2 = choose|w2: int|
                                        0 <= w2 < old_obs.len() && #[trigger] old_obs[w2] == key;
                                    assert(new_obs[w2] == key);
                                    assert(seq_contains_hash(new_obs, key));
                                }
                            } else {
                                assert(bit(self.pred_masks@[j], s));
                                assert(new_obs[new_obs.len() - 1] == newi);
                            }
                        }
                        assert forall|i: int, kk: int|
                            0 <= i < s && 0 <= kk < old(self).sig_preds(i).len() implies seq_contains_hash(
                            sha_list_view(self.pred_keys@),
                            #[trigger] old(self).sig_preds(i)[kk],
                        ) by {
                            assert(seq_contains_hash(
                                sha_list_view(prev_keys),
                                old(self).sig_preds(i)[kk],
                            ));
                            let jw = choose|jw: int|
                                0 <= jw < sha_list_view(prev_keys).len() && #[trigger] sha_list_view(
                                    prev_keys,
                                )[jw] == old(self).sig_preds(i)[kk];
                            assert(sha_list_view(self.pred_keys@)[jw] == old(self).sig_preds(
                                i,
                            )[kk]);
                        }
                        assert forall|kk: int| 0 <= kk < k + 1 implies seq_contains_hash(
                            sha_list_view(self.pred_keys@),
                            (#[trigger] imports@[kk])@,
                        ) by {
                            if kk < k {
                                assert(seq_contains_hash(
                                    sha_list_view(prev_keys),
                                    (imports@[kk])@,
                                ));
                                let jw = choose|jw: int|
                                    0 <= jw < sha_list_view(prev_keys).len()
                                        && #[trigger] sha_list_view(prev_keys)[jw] == (
                                    imports@[kk])@;
                                assert(sha_list_view(self.pred_keys@)[jw] == (imports@[kk])@);
                            } else {
                                assert(sha_list_view(self.pred_keys@)[jn] == newi);
                            }
                        }
                        assert forall|j: int, i: u32|
                            0 <= j < self.pred_keys@.len() && s < i < 32 implies !(#[trigger] bit(
                            self.pred_masks@[j],
                            i,
                        )) by {
                            if j < jn {
                                assert(self.pred_masks@[j] == prev_masks[j]);
                            } else {
                                assert(self.pred_masks@[j] == import_mask);
                            }
                        }
                    },
                    Some(j0) => {
                        let j0i = j0 as int;
                        lemma_bit_or(prev_masks[j0i], import_mask);
                        assert(self.pred_keys@ == prev_keys);
                        assert(self.pred_masks@ =~= prev_masks.update(
                            j0i,
                            (prev_masks[j0i] | import_mask) as u32,
                        ));
                        assert((prev_keys[j0i])@ == newi);
                        assert forall|j: int, i: u32|
                            0 <= j < self.pred_keys@.len() && i < s implies (#[trigger] bit(
                            self.pred_masks@[j],
                            i,
                        ) <==> seq_contains_hash(
                            old(self).sig_preds(i as int),
                            self.pred_keys@[j]@,
                        )) by {
                            assert(bit(prev_masks[j], i) <==> seq_contains_hash(
                                old(self).sig_preds(i as int),
                                (prev_keys[j])@,
                            ));
                            if j == j0i {
                                assert(bit(self.pred_masks@[j], i) == (bit(prev_masks[j], i) || bit(
                                    import_mask,
                                    i,
                                )));
                                assert(!bit(import_mask, i));
                            } else {
                                assert(self.pred_masks@[j] == prev_masks[j]);
                            }
                        }
                        assert forall|j: int|
                            0 <= j < self.pred_keys@.len() implies (#[trigger] bit(
                            self.pred_masks@[j],
                            s,
                        ) <==> seq_contains_hash(new_obs, self.pred_keys@[j]@)) by {
                            if j == j0i {
                                assert(bit(self.pred_masks@[j], s));
                                assert(new_obs[new_obs.len() - 1] == newi);
                            } else {
                                assert(self.pred_masks@[j] == prev_masks[j]);
                                let key = (prev_keys[j])@;
                                assert(bit(prev_masks[j], s) <==> seq_contains_hash(
                                    old_obs,
                                    key,
                                ));
                                assert(key != newi);
                                if seq_contains_hash(new_obs, key) {
                                    let w = choose|w: int|
                                        0 <= w < new_obs.len() && #[trigger] new_obs[w] == key;
                                    assert(old_obs[w] == key);
                                    assert(seq_contains_hash(old_obs, key));
                                }
                                if seq_contains_hash(old_obs, key) {
                                    let w2 = choose|w2: int|
                                        0 <= w2 < old_obs.len() && #[trigger] old_obs[w2] == key;
                                    assert(new_obs[w2] == key);
                                    assert(seq_contains_hash(new_obs, key));
                                }
                            }
                        }
                        assert forall|j: int, i: u32|
                            0 <= j < self.pred_keys@.len() && s < i < 32 implies !(#[trigger] bit(
                            self.pred_masks@[j],
                            i,
                        )) by {
                            if j == j0i {
                                assert(bit(self.pred_masks@[j], i) == (bit(prev_masks[j], i) || bit(
                                    import_mask,
                                    i,
                                )));
                            }
                        }
                        assert forall|kk: int| 0 <= kk < k + 1 implies seq_contains_hash(
                            sha_list_view(self.pred_keys@),
                            (#[trigger] imports@[kk])@,
                        ) by {
                            if kk == k {
                                assert(sha_list_view(self.pred_keys@)[j0i] == newi);
                            }
                        }
                    },
                }
            }
            k = k + 1;
        }
        proof {
            assert(sha_list_view(imports@.take(imports@.len() as int)) =~= sha_list_view(
                imports@,
            ));
        }
        let ghost keys_done = self.pred_keys@;
        let ghost masks_done = self.pred_masks@;
        self.hashes.push(imports);
        self.names.push(signature.base.name);
        self.descriptions.push(signature.base.description);
        proof {
            assert(self.pred_keys@ == keys_done);
            assert(self.pred_masks@ == masks_done);
            assert forall|i: int|
                0 <= i < old(self).sig_count() implies #[trigger] self.sig_preds(i) == old(
                self,
            ).sig_preds(i) by {
                assert(self.hashes@[i] == old(self).hashes@[i]);
            }
            assert(self.sig_preds(s as int) == sha_list_view(imps));
            self.lemma_append_wf(old(self), s, sv.hashes);
        }
    }

    /// The pushed rule leaves the set well formed.
    proof fn lemma_append_wf(&self, prev: &Self, s: u32, new_preds: Seq<Seq<u8>>)
        requires
            prev.wf(),
            s as int == prev.sig_count(),
            prev.sig_count() < 32,
            self.magic == prev.magic,
            self.names@.len() == prev.names@.len() + 1,
            self.descriptions@.len() == prev.descriptions@.len() + 1,
            self.hashes@.len() == prev.hashes@.len() + 1,
            self.names@.len() == self.descriptions@.len(),
            self.names@.len() == self.hashes@.len(),
            self.pred_keys@.len() == self.pred_masks@.len(),
            forall|j1: int, j2: int|
                0 <= j1 < j2 < self.pred_keys@.len() ==> (#[trigger] self.pred_keys@[j1])@ != (
                #[trigger] self.pred_keys@[j2])@,
            forall|i: int| 0 <= i < prev.sig_count() ==> self.sig_preds(i) == prev.sig_preds(i),
            self.sig_preds(s as int) == new_preds,
            forall|j: int, i: u32|
                0 <= j < self.pred_keys@.len() && i < prev.sig_count() ==> (#[trigger] bit(
                    self.pred_masks@[j],
                    i,
                ) <==> seq_contains_hash(prev.sig_preds(i as int), self.pred_keys@[j]@)),
            forall|j: int, i: u32|
                0 <= j < self.pred_keys@.len() && s < i < 32 ==> !(#[trigger] bit(
                    self.pred_masks@[j],
                    i,
                )),
            forall|i: int, kk: int|
                0 <= i < prev.sig_count() && 0 <= kk < prev.sig_preds(i).len()
                    ==> seq_contains_hash(
                    sha_list_view(self.pred_keys@),
                    #[trigger] prev.sig_preds(i)[kk],
                ),
            forall|j: int|
                0 <= j < self.pred_keys@.len() ==> (#[trigger] bit(self.pred_masks@[j], s)
                    <==> seq_contains_hash(new_preds, self.pred_keys@[j]@)),
            forall|kk: int|
                0 <= kk < new_preds.len() ==> seq_contains_hash(
                    sha_list_view(self.pred_keys@),
                    #[trigger] new_preds[kk],
                ),
        ensures
            self.wf(),
    {
        assert forall|j: int, i: u32|
            0 <= j < self.pred_keys@.len() && i < self.sig_count() implies (#[trigger] bit(
            self.pred_masks@[j],
            i,
        ) <==> seq_contains_hash(self.sig_preds(i as int), self.pred_keys@[j]@)) by {
            if i < prev.sig_count() {
                assert(self.sig_preds(i as int) == prev.sig_preds(i as int));
            } else {
                assert(i == s);
                assert(self.sig_preds(i as int) == new_preds);
            }
        }
        assert forall|i: int, kk: int|
            0 <= i < self.sig_count() && 0 <= kk < self.sig_preds(i).len() implies seq_contains_hash(
            sha_list_view(self.pred_keys@),
            #[trigger] self.sig_preds(i)[kk],
        ) by {
            if i < prev.sig_count() {
                assert(self.sig_preds(i) == prev.sig_preds(i));
                assert(seq_contains_hash(sha_list_view(self.pred_keys@), prev.sig_preds(i)[kk]));
            } else {
                assert(self.sig_preds(i) == new_preds);
                assert(seq_contains_hash(sha_list_view(self.pred_keys@), new_preds[kk]));
            }
        }
        assert forall|j: int, i: u32|
            0 <= j < self.pred_keys@.len() && self.sig_count() <= i < 32 implies !(#[trigger] bit(
            self.pred_masks@[j],
            i,
        )) by {}
    }


    /// Evaluates a list of observed hashes and reports the matched rule of
    /// lowest id, if any.
    pub fn eval_vec(&self, sha_vec: Vec<Sha256Buff>) -> (r: Result<
        Option<DetectionReport>,
        SigSetError,
    >)
        requires
            self.wf(),
        ensures
            r is Ok,
            r matches Ok(opt) ==> {
                let obs = sha_list_view(sha_vec@);
                &&& (opt is Some <==> exists|i: int|
                    0 <= i < self.sig_count() && self.matches_at(obs, i))
                &&& (opt matches Some(rep) ==> exists|i: int|
                    {
                        &&& 0 <= i < self.sig_count()
                        &&& #[trigger] self.matches_at(obs, i)
                        &&& forall|j: int| 0 <= j < i ==> !self.matches_at(obs, j)
                        &&& rep.name@ == self.sig_name(i)
                        &&& rep.desc@ == self.sig_description(i)
                    })
            },
    {
        match self.match_(&sha_vec) {
            Ok(Some(sig)) => Ok(Some(report_from_signature(sig))),
            Ok(None) => Ok(None),
            Err(e) => Err(e),
        }
    }
}

/// Match monotonicity: a rule fully met by some observations is fully met
/// by any observations that contain them all.
pub proof fn lemma_match_monotonic(preds: Seq<Seq<u8>>, obs: Seq<Seq<u8>>, wider: Seq<Seq<u8>>)
    requires
        rule_matches(preds, obs),
        forall|k: int| 0 <= k < obs.len() ==> seq_contains_hash(wider, #[trigger] obs[k]),
    ensures
        rule_matches(preds, wider),
{
    assert forall|k: int| 0 <= k < preds.len() implies seq_contains_hash(
        wider,
        #[trigger] preds[k],
    ) by {
        let w = choose|w: int| 0 <= w < obs.len() && #[trigger] obs[w] == preds[k];
        assert(seq_contains_hash(wider, obs[w]));
    }
}

/// Match soundness: a rule is fully met only where every one of its
/// predicate hashes appears among the observations.
pub proof fn lemma_match_subset_sound(h: &HeurSet, obs: Seq<Seq<u8>>, i: int)
    requires
        0 <= i < h.sig_count(),
        h.matches_at(obs, i),
    ensures
        forall|k: int|
            0 <= k < h.sig_preds(i).len() ==> seq_contains_hash(obs, #[trigger] h.sig_preds(i)[k]),
{
}

/// Tie-break: there is exactly one lowest-id rule among the fully met
/// ones, so the rule the matcher hands back is determined.
pub proof fn lemma_first_match_unique(h: &HeurSet, obs: Seq<Seq<u8>>, i1: int, i2: int)
    requires
        0 <= i1 < h.sig_count(),
        0 <= i2 < h.sig_count(),
        h.matches_at(obs, i1),
        h.matches_at(obs, i2),
        forall|j: int| 0 <= j < i1 ==> !h.matches_at(obs, j),
        forall|j: int| 0 <= j < i2 ==> !h.matches_at(obs, j),
    ensures
        i1 == i2,
{
}

/// The rules a bitmap set holds, as views, in id order.
pub open spec fn heur_set_views(h: &HeurSet) -> Seq<SigView> {
    Seq::new(
        h.sig_count() as nat,
        |k: int| SigView {
            name: h.sig_name(k),
            description: h.sig_description(k),
            kind: kind_of_magic(h.magic),
            hashes: h.sig_preds(k),
        },
    )
}

impl HeurSet {
    /// Hands every rule of the set to a serializer, in id order; fails
    /// exactly where a rule body outgrows the per-rule cap or the set
    /// outgrows the region bound.
    pub fn to_set_serializer(&self) -> (r: Result<SigSetSerializer, SigSetError>)
        requires
            self.wf(),
        ensures
            r matches Ok(ser) ==> ser.wf() && ser.magic == self.magic && ser.bodies@
                == views_bodies(heur_set_views(self)),
            r is Ok <==> serializable(heur_set_views(self)),
    {
        let mut ser = SigSetSerializer::new(self.magic);
        let ghost views = heur_set_views(self);
        proof {
            assert(views_bodies(views.take(0)) =~= Seq::<Seq<u8>>::empty());
        }
        let mut k: usize = 0;
        while k < self.names.len()
            invariant
                self.wf(),
                k <= self.sig_count(),
                views == heur_set_views(self),
                ser.wf(),
                ser.magic == self.magic,
                ser.bodies@ == views_bodies(views.take(k as int)),
            decreases self.sig_count() - k,
        {
            let sig = Signature::new_heur(
                self.names[k].clone(),
                self.descriptions[k].clone(),
                self.hashes[k].clone(),
                self.magic,
            );
            proof {
                assert(sig@.name == views[k as int].name);
                assert(sig@.description == views[k as int].description);
                assert(sig@.kind == views[k as int].kind);
                assert(sig@.hashes == views[k as int].hashes);
                assert(sig@ == views[k as int]);
            }
            push_body(&mut ser, k, encode_signature(&sig), Ghost(views))?;
            k = k + 1;
        }
        proof {
            assert(views.take(views.len() as int) =~= views);
            lemma_serializable_from_wf(&ser, views);
        }
        Ok(ser)
    }
}

} // verus!
