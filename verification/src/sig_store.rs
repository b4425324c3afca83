//! The signature store: routes rules into sets by body kind, dispatches
//! evaluation, and lays the whole bundle out on disk.
use vstd::prelude::*;

use crate::detection::{report_cause_bytes, DetectionReport};
use crate::hashing::{sha256_from_bytes, sha256_of, Sha256Buff};
use crate::pe::{file_import_obs, get_file_imports};
use crate::sig_set::heuristic_set::HeurSet;
use crate::sig_set::sha_set::ShaSet;
use crate::sig_set::heuristic_set::heur_set_views;
use crate::sig_set::signature::{Signature, SigView};
use crate::sig_set::sha_set::sha_set_views;
use crate::sig_set::sigset_deserializer::{
    lemma_set_roundtrip, parse_set, set_matches_views, spec_parse_rules, spec_set_data,
    spec_set_elem_count, spec_set_magic, spec_set_ok, spec_set_size, views_kind_ok, views_wf,
    SigSetKind,
};
use crate::sig_set::sigset_serializer::{serializable, set_bytes, views_bodies};
use crate::sig_set::{
    kind_of_magic, known_set_magic, SigSetError, BEH_MAGIC_U32, DYN_MAGIC_U32, HEUR_MAGIC_U32,
    SET_MAGIC_U32,
};
use crate::wire::{le32_at, le_bytes_of_u32, lemma_le32_at_subrange, lemma_le32_of_bytes,
    push_u32_le, read_u32_le};

verus! {

/// Magic of a whole bundle: "M5ET" packed little-endian.
pub const STORE_MAGIC_U32: u32 = 0x5445354D;

/// The header a bundle starts with: its magic and how many sets follow.
pub struct StoreHeader {
    pub magic: u32,
    pub elem_count: u32,
}

impl StoreHeader {
    pub fn new(elem_count: u32) -> (r: Self)
        ensures
            r.magic == STORE_MAGIC_U32,
            r.elem_count == elem_count,
    {
        Self { magic: STORE_MAGIC_U32, elem_count }
    }

    /// Accepts exactly the bundle magic.
    pub fn verify_magic(&self) -> (r: Result<(), SigSetError>)
        ensures
            r is Ok <==> self.magic == STORE_MAGIC_U32,
            r matches Err(e) ==> e is IncorrectMagicError,
    {
        if self.magic != STORE_MAGIC_U32 {
            return Err(SigSetError::IncorrectMagicError { current: self.magic });
        }
        Ok(())
    }

    pub fn elem_count(&self) -> (r: u32)
        ensures
            r == self.elem_count,
    {
        self.elem_count
    }
}

/// True when some rule of the held set is fully met.
pub open spec fn heur_slot_hit(slot: Option<HeurSet>, obs: Seq<Seq<u8>>) -> bool {
    match slot {
        Some(h) => exists|i: int| 0 <= i < h.sig_count() && #[trigger] h.matches_at(obs, i),
        None => false,
    }
}

/// True when the report names the first fully met rule of the held set.
pub open spec fn heur_slot_report(
    slot: Option<HeurSet>,
    obs: Seq<Seq<u8>>,
    rep: DetectionReport,
) -> bool {
    match slot {
        Some(h) => exists|i: int|
            {
                &&& 0 <= i < h.sig_count()
                &&& #[trigger] h.matches_at(obs, i)
                &&& forall|j: int| 0 <= j < i ==> !h.matches_at(obs, j)
                &&& rep.name@ == h.sig_name(i)
                &&& rep.desc@ == h.sig_description(i)
            },
        None => false,
    }
}

/// True when the report names the matched content-hash rule, cause line
/// included.
pub open spec fn sha_slot_report(slot: Option<ShaSet>, hash: Seq<u8>, rep: DetectionReport) -> bool {
    match slot {
        Some(s) => exists|i: int|
            {
                &&& 0 <= i < s.sig_count()
                &&& #[trigger] s.sha_at(i) == hash
                &&& rep.name@ == s.name_at(i)
                &&& rep.desc@ == s.description_at(i)
                &&& vstd::utf8::encode_utf8(rep.cause@) == report_cause_bytes(0, seq![hash])
            },
        None => false,
    }
}

/// The store: up to two file sets (exact hashes and import fingerprints),
/// one sandbox-call set, one behavioural set. Empty slots hold nothing.
pub struct SignatureStore {
    pub sha_set: Option<ShaSet>,
    pub import_set: Option<HeurSet>,
    pub sandbox_set: Option<HeurSet>,
    pub behavioural_set: Option<HeurSet>,
}

impl SignatureStore {
    /// Every held set is consistent and sits in the slot its magic names.
    pub open spec fn wf(&self) -> bool {
        &&& (self.sha_set matches Some(s) ==> s.wf())
        &&& (self.import_set matches Some(h) ==> h.wf() && h.magic == HEUR_MAGIC_U32)
        &&& (self.sandbox_set matches Some(h) ==> h.wf() && h.magic == DYN_MAGIC_U32)
        &&& (self.behavioural_set matches Some(h) ==> h.wf() && h.magic == BEH_MAGIC_U32)
    }

    pub fn new(
        sha_set: Option<ShaSet>,
        import_set: Option<HeurSet>,
        sandbox_set: Option<HeurSet>,
        behavioural_set: Option<HeurSet>,
    ) -> (r: Self)
        ensures
            r.sha_set == sha_set,
            r.import_set == import_set,
            r.sandbox_set == sandbox_set,
            r.behavioural_set == behavioural_set,
    {
        Self { sha_set, import_set, sandbox_set, behavioural_set }
    }

    /// Evaluates a behavioural observation: the attribute hashes of one
    /// event, against the behavioural set.
    pub fn eval_vec(&self, vec: Vec<Sha256Buff>) -> (r: Result<
        Option<DetectionReport>,
        SigSetError,
    >)
        requires
            self.wf(),
        ensures
            r is Ok,
            r matches Ok(opt) ==> {
                let obs = crate::hasher::sha_list_view(vec@);
                &&& (opt is Some <==> heur_slot_hit(self.behavioural_set, obs))
                &&& (opt matches Some(rep) ==> heur_slot_report(self.behavioural_set, obs, rep))
            },
    {
        match &self.behavioural_set {
            Some(set) => set.eval_vec(vec),
            None => Ok(None),
        }
    }

    /// Evaluates a sandbox run's API-call hashes against the call set.
    pub fn eval_sandboxed_file(&self, sha_vec: Vec<Sha256Buff>) -> (r: Result<
        Option<DetectionReport>,
        SigSetError,
    >)
        requires
            self.wf(),
        ensures
            r is Ok,
            r matches Ok(opt) ==> {
                let obs = crate::hasher::sha_list_view(sha_vec@);
                &&& (opt is Some <==> heur_slot_hit(self.sandbox_set, obs))
                &&& (opt matches Some(rep) ==> heur_slot_report(self.sandbox_set, obs, rep))
            },
    {
        match &self.sandbox_set {
            Some(set) => set.eval_vec(sha_vec),
            None => Ok(None),
        }
    }

    /// True when the content hash of a file image fires the exact-hash set.
    pub open spec fn sha_hit(&self, bytes: Seq<u8>) -> bool {
        match self.sha_set {
            Some(s) => s.contains_sha(sha256_of(bytes)@),
            None => false,
        }
    }

    /// True when the file's import fingerprints fire the import set.
    pub open spec fn import_hit(&self, bytes: Seq<u8>) -> bool {
        match file_import_obs(bytes) {
            Some(obs) => heur_slot_hit(self.import_set, obs),
            None => false,
        }
    }

    /// Which report a file-image verdict carries: the matched content-hash
    /// rule where that set fires — the content-hash set is consulted
    /// first — else the first fully met import rule.
    pub open spec fn file_verdict_report(&self, bytes: Seq<u8>, rep: DetectionReport) -> bool {
        if self.sha_hit(bytes) {
            sha_slot_report(self.sha_set, sha256_of(bytes)@, rep)
        } else {
            match file_import_obs(bytes) {
                Some(obs) => heur_slot_report(self.import_set, obs, rep),
                None => false,
            }
        }
    }

    /// Evaluates a whole file image: first against the exact content
    /// hashes, then — clean so far — against the import fingerprints. A
    /// file that is no object file simply has no imports.
    pub fn eval_file_bytes(&self, bytes: &[u8]) -> (r: Result<Option<DetectionReport>, SigSetError>)
        requires
            self.wf(),
        ensures
            r is Ok,
            r matches Ok(opt) ==> (opt is Some <==> self.sha_hit(bytes@) || self.import_hit(
                bytes@,
            )),
            r matches Ok(opt) ==> (opt matches Some(rep) ==> self.file_verdict_report(
                bytes@,
                rep,
            )),
    {
        if let Some(sha_set) = &self.sha_set {
            let content_hash = sha256_from_bytes(bytes);
            match sha_set.match_(&content_hash) {
                Ok(Some(sig)) => {
                    let rep = crate::detection::report_from_signature(sig);
                    proof {
                        let i0 = choose|i: int|
                            0 <= i < sha_set.sig_count() && #[trigger] sha_set.sha_at(i)
                                == content_hash@ && sig@.name == sha_set.name_at(i)
                                && sig@.description == sha_set.description_at(i) && sig@.kind == 0
                                && sig@.hashes == seq![content_hash@];
                        match &self.sha_set {
                            Some(s) => {
                                assert(*s == *sha_set);
                                assert(s.sha_at(i0) == content_hash@);
                                assert(self.sha_hit(bytes@));
                                assert(sha_slot_report(self.sha_set, sha256_of(bytes@)@, rep));
                            },
                            None => {
                                assert(false);
                            },
                        }
                    }
                    return Ok(Some(rep));
                },
                Ok(None) => {},
                Err(e) => {
                    return Err(e);
                },
            }
        }
        if let Some(import_set) = &self.import_set {
            if let Some(imports) = get_file_imports(bytes) {
                let ghost obs = crate::hasher::sha_list_view(imports@);
                match import_set.eval_vec(imports) {
                    Ok(Some(rep)) => {
                        proof {
                            assert(file_import_obs(bytes@) == Some(obs));
                            assert(heur_slot_hit(self.import_set, obs));
                            assert(self.import_hit(bytes@));
                            assert(!self.sha_hit(bytes@));
                            assert(heur_slot_report(self.import_set, obs, rep));
                        }
                        return Ok(Some(rep));
                    },
                    Ok(None) => {},
                    Err(e) => {
                        return Err(e);
                    },
                }
            }
        }
        Ok(None)
    }
}

/// The sets a store lays out on disk, in order: exact hashes, import
/// fingerprints, sandbox calls, behavioural rules; empty slots are left
/// out.
pub open spec fn store_slots(st: &SignatureStore) -> Seq<(u32, Seq<SigView>)> {
    let s0: Seq<(u32, Seq<SigView>)> = match st.sha_set {
        Some(s) => if s.sig_count() > 0 {
            seq![(SET_MAGIC_U32, sha_set_views(&s))]
        } else {
            Seq::empty()
        },
        None => Seq::empty(),
    };
    let s1: Seq<(u32, Seq<SigView>)> = match st.import_set {
        Some(h) => if h.sig_count() > 0 {
            seq![(HEUR_MAGIC_U32, heur_set_views(&h))]
        } else {
            Seq::empty()
        },
        None => Seq::empty(),
    };
    let s2: Seq<(u32, Seq<SigView>)> = match st.sandbox_set {
        Some(h) => if h.sig_count() > 0 {
            seq![(DYN_MAGIC_U32, heur_set_views(&h))]
        } else {
            Seq::empty()
        },
        None => Seq::empty(),
    };
    let s3: Seq<(u32, Seq<SigView>)> = match st.behavioural_set {
        Some(h) => if h.sig_count() > 0 {
            seq![(BEH_MAGIC_U32, heur_set_views(&h))]
        } else {
            Seq::empty()
        },
        None => Seq::empty(),
    };
    s0 + s1 + s2 + s3
}

/// The concatenated on-disk bytes of a list of sets.
pub open spec fn sets_bytes(list: Seq<(u32, Seq<SigView>)>) -> Seq<u8>
    decreases list.len(),
{
    if list.len() == 0 {
        Seq::empty()
    } else {
        set_bytes(list[0].0, views_bodies(list[0].1)) + sets_bytes(list.drop_first())
    }
}

/// The whole bundle: its magic, the number of sets, and the sets.
pub open spec fn store_bytes(st: &SignatureStore) -> Seq<u8> {
    le_bytes_of_u32(STORE_MAGIC_U32) + le_bytes_of_u32(store_slots(st).len() as u32) + sets_bytes(
        store_slots(st),
    )
}

/// True when every set of the list can be laid out and read back.
pub open spec fn slots_ok(list: Seq<(u32, Seq<SigView>)>) -> bool {
    forall|k: int|
        0 <= k < list.len() ==> {
            &&& known_set_magic((#[trigger] list[k]).0)
            &&& views_wf(list[k].1)
            &&& serializable(list[k].1)
            &&& views_kind_ok(list[k].0, list[k].1)
        }
}

/// The sets read back from bundle bytes at `pos`, where `count` whole sets
/// lie there.
pub open spec fn spec_parse_store_sets(b: Seq<u8>, pos: int, count: int) -> Option<
    Seq<(u32, Seq<SigView>)>,
>
    decreases count,
{
    if count <= 0 {
        Some(Seq::empty())
    } else if !spec_set_ok(b, pos) {
        None
    } else {
        let magic = spec_set_magic(b, pos);
        match spec_parse_rules(spec_set_data(b, pos), spec_set_elem_count(b, pos) as int, 0) {
            None => None,
            Some(views) => if !views_kind_ok(magic, views) {
                None
            } else {
                match spec_parse_store_sets(b, pos + 44 + spec_set_size(b, pos), count - 1) {
                    None => None,
                    Some(rest) => Some(seq![(magic, views)] + rest),
                }
            },
        }
    }
}

/// The sets a whole bundle carries, where it carries any.
pub open spec fn spec_parse_store(b: Seq<u8>) -> Option<Seq<(u32, Seq<SigView>)>> {
    if b.len() < 8 {
        None
    } else if le32_at(b, 0) != STORE_MAGIC_U32 {
        None
    } else {
        spec_parse_store_sets(b, 8, le32_at(b, 4) as int)
    }
}

/// The views of the last set of the list carrying the given magic.
pub open spec fn last_slot(list: Seq<(u32, Seq<SigView>)>, magic: u32) -> Option<Seq<SigView>>
    decreases list.len(),
{
    if list.len() == 0 {
        None
    } else if list.last().0 == magic {
        Some(list.last().1)
    } else {
        last_slot(list.drop_last(), magic)
    }
}

/// Laying out a list of sets and reading them back at any position yields
/// the same list.
pub proof fn lemma_sets_roundtrip(list: Seq<(u32, Seq<SigView>)>, prefix: Seq<u8>)
    requires
        slots_ok(list),
    ensures
        spec_parse_store_sets(prefix + sets_bytes(list), prefix.len() as int, list.len() as int)
            == Some(list),
    decreases list.len(),
{
    let b = prefix + sets_bytes(list);
    let pos = prefix.len() as int;
    if list.len() == 0 {
        assert(spec_parse_store_sets(b, pos, 0) == Some(Seq::<(u32, Seq<SigView>)>::empty()));
        assert(list =~= Seq::<(u32, Seq<SigView>)>::empty());
    } else {
        let magic = list[0].0;
        let views = list[0].1;
        let sb = set_bytes(magic, views_bodies(views));
        let rest = sets_bytes(list.drop_first());
        assert(sets_bytes(list) == sb + rest);
        lemma_set_roundtrip(magic, views, prefix, rest);
        assert(prefix + (sb + rest) == (prefix + sb) + rest) by {
            vstd::seq_lib::lemma_concat_associative(prefix, sb, rest);
        }
        assert(b == prefix + sb + rest);
        assert(list.drop_first().len() < list.len());
        assert forall|k: int| 0 <= k < list.drop_first().len() implies {
            &&& known_set_magic((#[trigger] list.drop_first()[k]).0)
            &&& views_wf(list.drop_first()[k].1)
            &&& serializable(list.drop_first()[k].1)
            &&& views_kind_ok(list.drop_first()[k].0, list.drop_first()[k].1)
        } by {
            assert(list.drop_first()[k] == list[k + 1]);
        }
        lemma_sets_roundtrip(list.drop_first(), prefix + sb);
        assert((prefix + sb) + rest == b);
        assert(spec_parse_store_sets(b, pos + 44 + spec_set_size(b, pos), list.len() - 1)
            == Some(list.drop_first()));
        assert(seq![(magic, views)] + list.drop_first() =~= list);
    }
}

/// The bytes of a single set.
proof fn lemma_sets_bytes_single(slot: (u32, Seq<SigView>))
    ensures
        sets_bytes(seq![slot]) == set_bytes(slot.0, views_bodies(slot.1)),
{
    assert(seq![slot].drop_first() =~= Seq::<(u32, Seq<SigView>)>::empty());
    assert(sets_bytes(Seq::<(u32, Seq<SigView>)>::empty()) == Seq::<u8>::empty());
    assert(seq![slot][0] == slot);
    assert(set_bytes(slot.0, views_bodies(slot.1)) + Seq::<u8>::empty() =~= set_bytes(
        slot.0,
        views_bodies(slot.1),
    ));
}

/// Each non-empty set of the store stands somewhere in its slot list.
proof fn lemma_slot_positions(st: &SignatureStore)
    ensures
        (match st.sha_set {
            Some(sh) => sh.sig_count() > 0 ==> exists|k: int|
                0 <= k < store_slots(st).len() && #[trigger] store_slots(st)[k] == (
                SET_MAGIC_U32,
                sha_set_views(&sh),
                ),
            None => true,
        }),
        (match st.import_set {
            Some(h) => h.sig_count() > 0 ==> exists|k: int|
                0 <= k < store_slots(st).len() && #[trigger] store_slots(st)[k] == (
                HEUR_MAGIC_U32,
                heur_set_views(&h),
                ),
            None => true,
        }),
        (match st.sandbox_set {
            Some(h) => h.sig_count() > 0 ==> exists|k: int|
                0 <= k < store_slots(st).len() && #[trigger] store_slots(st)[k] == (
                DYN_MAGIC_U32,
                heur_set_views(&h),
                ),
            None => true,
        }),
        (match st.behavioural_set {
            Some(h) => h.sig_count() > 0 ==> exists|k: int|
                0 <= k < store_slots(st).len() && #[trigger] store_slots(st)[k] == (
                BEH_MAGIC_U32,
                heur_set_views(&h),
                ),
            None => true,
        }),
{
    let list = store_slots(st);
    let n0: int = match st.sha_set {
        Some(sh) => if sh.sig_count() > 0 {
            1int
        } else {
            0int
        },
        None => 0int,
    };
    let n1: int = match st.import_set {
        Some(h) => if h.sig_count() > 0 {
            1int
        } else {
            0int
        },
        None => 0int,
    };
    let n2: int = match st.sandbox_set {
        Some(h) => if h.sig_count() > 0 {
            1int
        } else {
            0int
        },
        None => 0int,
    };
    match st.sha_set {
        Some(sh) => {
            if sh.sig_count() > 0 {
                assert(list[0] == (SET_MAGIC_U32, sha_set_views(&sh)));
            }
        },
        None => {},
    }
    match st.import_set {
        Some(h) => {
            if h.sig_count() > 0 {
                assert(list[n0] == (HEUR_MAGIC_U32, heur_set_views(&h)));
            }
        },
        None => {},
    }
    match st.sandbox_set {
        Some(h) => {
            if h.sig_count() > 0 {
                assert(list[n0 + n1] == (DYN_MAGIC_U32, heur_set_views(&h)));
            }
        },
        None => {},
    }
    match st.behavioural_set {
        Some(h) => {
            if h.sig_count() > 0 {
                assert(list[n0 + n1 + n2] == (BEH_MAGIC_U32, heur_set_views(&h)));
            }
        },
        None => {},
    }
}

/// Splitting a list of sets splits their bytes.
proof fn lemma_sets_bytes_concat(a: Seq<(u32, Seq<SigView>)>, b: Seq<(u32, Seq<SigView>)>)
    ensures
        sets_bytes(a + b) == sets_bytes(a) + sets_bytes(b),
    decreases a.len(),
{
    if a.len() == 0 {
        assert(a + b =~= b);
        assert(Seq::<u8>::empty() + sets_bytes(b) =~= sets_bytes(b));
    } else {
        assert((a + b).drop_first() =~= a.drop_first() + b);
        assert((a + b)[0] == a[0]);
        lemma_sets_bytes_concat(a.drop_first(), b);
        assert(sets_bytes(a + b) =~= sets_bytes(a) + sets_bytes(b)) by {
            vstd::seq_lib::lemma_concat_associative(
                set_bytes(a[0].0, views_bodies(a[0].1)),
                sets_bytes(a.drop_first()),
                sets_bytes(b),
            );
        }
    }
}

/// A bundle laid out from a well-formed store reads back as the same list
/// of sets. Together with the contracts of `serialize` and `deserialize`,
/// deserializing a serialized store recovers every rule of every set.
pub proof fn lemma_store_roundtrip(st: &SignatureStore)
    requires
        st.wf(),
        slots_ok(store_slots(st)),
    ensures
        spec_parse_store(store_bytes(st)) == Some(store_slots(st)),
{
    let b = store_bytes(st);
    let list = store_slots(st);
    let head = le_bytes_of_u32(STORE_MAGIC_U32) + le_bytes_of_u32(list.len() as u32);
    assert(b.subrange(0, 4) =~= le_bytes_of_u32(STORE_MAGIC_U32));
    assert(b.subrange(4, 8) =~= le_bytes_of_u32(list.len() as u32));
    lemma_le32_at_subrange(b, 0);
    lemma_le32_at_subrange(b, 4);
    lemma_le32_of_bytes(STORE_MAGIC_U32);
    lemma_le32_of_bytes(list.len() as u32);
    lemma_sets_roundtrip(list, head);
    assert(head + sets_bytes(list) == b);
    assert(list.len() <= 4);
}

impl SignatureStore {
    /// Lays the whole store out on disk: bundle header, then each
    /// non-empty set in order. Fails exactly where some rule body outgrows
    /// the per-rule cap or some set outgrows its region bound.
    #[verifier::rlimit(100)]
    pub fn serialize(&self) -> (r: Result<Vec<u8>, SigSetError>)
        requires
            self.wf(),
        ensures
            r matches Ok(v) ==> v@ == store_bytes(self),
            r is Ok <==> slots_ok(store_slots(self)),
    {
        proof {
            self.lemma_slots_mostly_ok();
        }
        let ghost list = store_slots(self);
        let mut count: u32 = 0;
        let mut chunks: Vec<u8> = Vec::new();
        let ghost mut emitted: Seq<(u32, Seq<SigView>)> = Seq::empty();
        proof {
            assert(sets_bytes(emitted) =~= Seq::<u8>::empty());
        }
        if let Some(set) = &self.sha_set {
            if set.signatures_number() > 0 {
                let ser = match set.to_set_serializer() {
                    Ok(s) => s,
                    Err(e) => {
                        proof {
                            lemma_slot_positions(self);
                        }
                        return Err(e);
                    },
                };
                let bytes = ser.serialize();
                chunks.extend_from_slice(bytes.as_slice());
                count = count + 1;
                proof {
                    let slot = (SET_MAGIC_U32, sha_set_views(set));
                    let prev = emitted;
                    lemma_sets_bytes_concat(prev, seq![slot]);
                    lemma_sets_bytes_single(slot);
                    emitted = emitted.push(slot);
                    assert(prev + seq![slot] =~= emitted);
                }
            }
        }
        if let Some(set) = &self.import_set {
            if set.signatures_number() > 0 {
                let ser = match set.to_set_serializer() {
                    Ok(s) => s,
                    Err(e) => {
                        proof {
                            lemma_slot_positions(self);
                        }
                        return Err(e);
                    },
                };
                let bytes = ser.serialize();
                chunks.extend_from_slice(bytes.as_slice());
                count = count + 1;
                proof {
                    let slot = (HEUR_MAGIC_U32, heur_set_views(set));
                    let prev = emitted;
                    lemma_sets_bytes_concat(prev, seq![slot]);
                    lemma_sets_bytes_single(slot);
                    emitted = emitted.push(slot);
                    assert(prev + seq![slot] =~= emitted);
                }
            }
        }
        if let Some(set) = &self.sandbox_set {
            if set.signatures_number() > 0 {
                let ser = match set.to_set_serializer() {
                    Ok(s) => s,
                    Err(e) => {
                        proof {
                            lemma_slot_positions(self);
                        }
                        return Err(e);
                    },
                };
                let bytes = ser.serialize();
                chunks.extend_from_slice(bytes.as_slice());
                count = count + 1;
                proof {
                    let slot = (DYN_MAGIC_U32, heur_set_views(set));
                    let prev = emitted;
                    lemma_sets_bytes_concat(prev, seq![slot]);
                    lemma_sets_bytes_single(slot);
                    emitted = emitted.push(slot);
                    assert(prev + seq![slot] =~= emitted);
                }
            }
        }
        if let Some(set) = &self.behavioural_set {
            if set.signatures_number() > 0 {
                let ser = match set.to_set_serializer() {
                    Ok(s) => s,
                    Err(e) => {
                        proof {
                            lemma_slot_positions(self);
                        }
                        return Err(e);
                    },
                };
                let bytes = ser.serialize();
                chunks.extend_from_slice(bytes.as_slice());
                count = count + 1;
                proof {
                    let slot = (BEH_MAGIC_U32, heur_set_views(set));
                    let prev = emitted;
                    lemma_sets_bytes_concat(prev, seq![slot]);
                    lemma_sets_bytes_single(slot);
                    emitted = emitted.push(slot);
                    assert(prev + seq![slot] =~= emitted);
                }
            }
        }
        proof {
            assert(emitted =~= list);
            assert(count == list.len());
        }
        let mut out: Vec<u8> = Vec::new();
        push_u32_le(&mut out, STORE_MAGIC_U32);
        push_u32_le(&mut out, count);
        out.extend_from_slice(chunks.as_slice());
        proof {
            assert(out@ =~= store_bytes(self));
            assert forall|k: int| 0 <= k < list.len() implies {
                &&& known_set_magic((#[trigger] list[k]).0)
                &&& views_wf(list[k].1)
                &&& serializable(list[k].1)
                &&& views_kind_ok(list[k].0, list[k].1)
            } by {}
        }
        Ok(out)
    }

    /// Every slot of a well-formed store satisfies everything the on-disk
    /// layout asks of it but the size bounds.
    proof fn lemma_slots_mostly_ok(&self)
        requires
            self.wf(),
        ensures
            forall|k: int|
                0 <= k < store_slots(self).len() ==> {
                    &&& known_set_magic((#[trigger] store_slots(self)[k]).0)
                    &&& views_wf(store_slots(self)[k].1)
                    &&& views_kind_ok(store_slots(self)[k].0, store_slots(self)[k].1)
                },
    {
        let list = store_slots(self);
        assert forall|k: int| 0 <= k < list.len() implies {
            &&& known_set_magic((#[trigger] list[k]).0)
            &&& views_wf(list[k].1)
            &&& views_kind_ok(list[k].0, list[k].1)
        } by {
            match self.sha_set {
                Some(sh) => {
                    assert(forall|i: int|
                        0 <= i < sha_set_views(&sh).len()
                            ==> crate::sig_set::signature::sig_view_wf(
                            #[trigger] sha_set_views(&sh)[i],
                        ));
                },
                None => {},
            }
            match self.import_set {
                Some(h) => {
                    assert(forall|i: int|
                        0 <= i < heur_set_views(&h).len()
                            ==> crate::sig_set::signature::sig_view_wf(
                            #[trigger] heur_set_views(&h)[i],
                        ));
                },
                None => {},
            }
            match self.sandbox_set {
                Some(h) => {
                    assert(forall|i: int|
                        0 <= i < heur_set_views(&h).len()
                            ==> crate::sig_set::signature::sig_view_wf(
                            #[trigger] heur_set_views(&h)[i],
                        ));
                },
                None => {},
            }
            match self.behavioural_set {
                Some(h) => {
                    assert(forall|i: int|
                        0 <= i < heur_set_views(&h).len()
                            ==> crate::sig_set::signature::sig_view_wf(
                            #[trigger] heur_set_views(&h)[i],
                        ));
                },
                None => {},
            }
        }
    }

    /// Reads a whole bundle back: the bundle header, then each set, routed
    /// into the slot its magic names; a later set of a magic replaces an
    /// earlier one.
    #[verifier::rlimit(100)]
    pub fn deserialize(bytes: &[u8]) -> (r: Result<SignatureStore, SigSetError>)
        ensures
            r is Ok <==> spec_parse_store(bytes@) is Some,
            r matches Ok(st) ==> {
                &&& st.wf()
                &&& spec_parse_store(bytes@) matches Some(list) && store_matches_list(&st, list)
            },
            r matches Err(e) ==> {
                &&& (bytes@.len() < 8 ==> e is IncorrectFileSizeError)
                &&& (bytes@.len() >= 8 && le32_at(bytes@, 0) != STORE_MAGIC_U32
                    ==> e is IncorrectMagicError)
                &&& (e is IncorrectFileSizeError || e is IncorrectMagicError
                    || e is IncorrectChecksumError || e is DecodeError
                    || e is IncorrectSignatureSizeError)
            },
    {
        let n = bytes.len();
        if n < 8 {
            return Err(SigSetError::IncorrectFileSizeError { size: n as u64 });
        }
        let magic = read_u32_le(bytes, 0);
        if magic != STORE_MAGIC_U32 {
            return Err(SigSetError::IncorrectMagicError { current: magic });
        }
        let count32 = read_u32_le(bytes, 4);
        let count = count32 as usize;
        let mut st = SignatureStore {
            sha_set: None,
            import_set: None,
            sandbox_set: None,
            behavioural_set: None,
        };
        let mut pos: usize = 8;
        let ghost mut built: Seq<(u32, Seq<SigView>)> = Seq::empty();
        proof {
            reveal(store_matches_list);
        }
        let mut t: usize = 0;
        while t < count
            invariant
                t <= count,
                built.len() == t,
                n == bytes@.len(),
                n >= 8,
                le32_at(bytes@, 0) == STORE_MAGIC_U32,
                count == le32_at(bytes@, 4),
                8 <= pos <= n,
                st.wf(),
                store_matches_list(&st, built),
                spec_parse_store_sets(bytes@, 8, count as int) is Some <==> spec_parse_store_sets(
                    bytes@,
                    pos as int,
                    count - t,
                ) is Some,
                spec_parse_store_sets(bytes@, 8, count as int) matches Some(all_sets) ==> (
                spec_parse_store_sets(bytes@, pos as int, count - t) matches Some(rest) && all_sets
                    == built + rest),
            decreases count - t,
        {
            let ghost prev_st = st;
            let (kind, consumed) = match parse_set(bytes, pos) {
                Ok(p) => p,
                Err(e) => {
                    proof {
                        assert(spec_parse_store_sets(bytes@, pos as int, count - t) is None);
                    }
                    return Err(e);
                },
            };
            let ghost magic_t = spec_set_magic(bytes@, pos as int);
            let ghost views_t = spec_parse_rules(
                spec_set_data(bytes@, pos as int),
                spec_set_elem_count(bytes@, pos as int) as int,
                0,
            )->Some_0;
            let ghost prevb = built;
            let ghost gkind = kind;
            match kind {
                SigSetKind::Sha(set) => {
                    st.sha_set = Some(set);
                },
                SigSetKind::Heur(set) => {
                    if set.magic == HEUR_MAGIC_U32 {
                        st.import_set = Some(set);
                    } else if set.magic == DYN_MAGIC_U32 {
                        st.sandbox_set = Some(set);
                    } else {
                        st.behavioural_set = Some(set);
                    }
                },
            }
            proof {
                built = built.push((magic_t, views_t));
                assert(built.drop_last() =~= prevb);
                match spec_parse_store_sets(
                    bytes@,
                    pos + 44 + spec_set_size(bytes@, pos as int),
                    count - t - 1,
                ) {
                    Some(rest) => {
                        assert(prevb + (seq![(magic_t, views_t)] + rest) =~= built + rest);
                    },
                    None => {},
                }
                lemma_route_step(prev_st, st, prevb, magic_t, views_t, gkind);
            }
            pos = pos + consumed;
            t = t + 1;
        }
        proof {
            assert(spec_parse_store_sets(bytes@, pos as int, 0) == Some(
                Seq::<(u32, Seq<SigView>)>::empty(),
            ));
            match spec_parse_store_sets(bytes@, 8, count as int) {
                Some(all_sets) => {
                    assert(all_sets =~= built);
                },
                None => {
                    assert(false);
                },
            }
        }
        Ok(st)
    }
}

/// True when each slot of the store holds exactly the rules of the last
/// set of its magic in the list, and nothing where the list has none.
#[verifier::opaque]
pub open spec fn store_matches_list(st: &SignatureStore, list: Seq<(u32, Seq<SigView>)>) -> bool {
    &&& (match st.sha_set {
        Some(sh) => last_slot(list, SET_MAGIC_U32) matches Some(views) && set_matches_views(
            SigSetKind::Sha(sh),
            SET_MAGIC_U32,
            views,
        ),
        None => last_slot(list, SET_MAGIC_U32) is None,
    })
    &&& (match st.import_set {
        Some(h) => last_slot(list, HEUR_MAGIC_U32) matches Some(views) && set_matches_views(
            SigSetKind::Heur(h),
            HEUR_MAGIC_U32,
            views,
        ),
        None => last_slot(list, HEUR_MAGIC_U32) is None,
    })
    &&& (match st.sandbox_set {
        Some(h) => last_slot(list, DYN_MAGIC_U32) matches Some(views) && set_matches_views(
            SigSetKind::Heur(h),
            DYN_MAGIC_U32,
            views,
        ),
        None => last_slot(list, DYN_MAGIC_U32) is None,
    })
    &&& (match st.behavioural_set {
        Some(h) => last_slot(list, BEH_MAGIC_U32) matches Some(views) && set_matches_views(
            SigSetKind::Heur(h),
            BEH_MAGIC_U32,
            views,
        ),
        None => last_slot(list, BEH_MAGIC_U32) is None,
    })
}

/// Routing one parsed set into the slot its magic names keeps the store
/// matching the sets read so far.
proof fn lemma_route_step(
    prev_st: SignatureStore,
    new_st: SignatureStore,
    prevb: Seq<(u32, Seq<SigView>)>,
    magic_t: u32,
    views_t: Seq<SigView>,
    gkind: SigSetKind,
)
    requires
        store_matches_list(&prev_st, prevb),
        set_matches_views(gkind, magic_t, views_t),
        match gkind {
            SigSetKind::Sha(sh) => {
                &&& new_st.sha_set == Some(sh)
                &&& new_st.import_set == prev_st.import_set
                &&& new_st.sandbox_set == prev_st.sandbox_set
                &&& new_st.behavioural_set == prev_st.behavioural_set
            },
            SigSetKind::Heur(h) => {
                &&& h.wf()
                &&& (h.magic == HEUR_MAGIC_U32 ==> new_st.import_set == Some(h)
                    && new_st.sha_set == prev_st.sha_set && new_st.sandbox_set
                    == prev_st.sandbox_set && new_st.behavioural_set == prev_st.behavioural_set)
                &&& (h.magic == DYN_MAGIC_U32 ==> new_st.sandbox_set == Some(h) && new_st.sha_set
                    == prev_st.sha_set && new_st.import_set == prev_st.import_set
                    && new_st.behavioural_set == prev_st.behavioural_set)
                &&& (h.magic == BEH_MAGIC_U32 ==> new_st.behavioural_set == Some(h)
                    && new_st.sha_set == prev_st.sha_set && new_st.import_set
                    == prev_st.import_set && new_st.sandbox_set == prev_st.sandbox_set)
            },
        },
    ensures
        store_matches_list(&new_st, prevb.push((magic_t, views_t))),
{
    reveal(store_matches_list);
    let built = prevb.push((magic_t, views_t));
    assert(built.drop_last() =~= prevb);
    assert(built.last() == (magic_t, views_t));
    assert(last_slot(built, magic_t) == Some(views_t));
    assert forall|m: u32| m != magic_t implies last_slot(built, m) == last_slot(prevb, m) by {}
    match gkind {
        SigSetKind::Sha(sh) => {
            assert(magic_t == SET_MAGIC_U32);
        },
        SigSetKind::Heur(h) => {
            assert(h.magic == magic_t);
            assert(crate::sig_set::heur_kind_magic(magic_t));
        },
    }
}

/// The rules of one body kind, in load order.
pub open spec fn kind_filter(views: Seq<SigView>, kind: int) -> Seq<SigView>
    decreases views.len(),
{
    if views.len() == 0 {
        Seq::empty()
    } else {
        let prefix = kind_filter(views.drop_last(), kind);
        if views.last().kind == kind {
            prefix.push(views.last())
        } else {
            prefix
        }
    }
}

/// A longer prefix never filters to fewer rules.
proof fn lemma_kind_filter_mono(views: Seq<SigView>, kind: int, a: int, b: int)
    requires
        0 <= a <= b <= views.len(),
    ensures
        kind_filter(views.take(a), kind).len() <= kind_filter(views.take(b), kind).len(),
    decreases b - a,
{
    if a < b {
        lemma_kind_filter_mono(views, kind, a, b - 1);
        assert(views.take(b).drop_last() =~= views.take(b - 1));
    }
}

/// True when the slot holds exactly the given rules, and nothing where
/// there are none.
pub open spec fn heur_slot_matches(slot: Option<HeurSet>, magic: u32, views: Seq<SigView>) -> bool {
    match slot {
        Some(h) => views.len() > 0 && set_matches_views(SigSetKind::Heur(h), magic, views),
        None => views.len() == 0,
    }
}

/// True when the content-hash slot holds exactly the given rules, and
/// nothing where there are none.
pub open spec fn sha_slot_matches(slot: Option<ShaSet>, views: Seq<SigView>) -> bool {
    match slot {
        Some(sh) => views.len() > 0 && set_matches_views(
            SigSetKind::Sha(sh),
            SET_MAGIC_U32,
            views,
        ),
        None => views.len() == 0,
    }
}

impl SignatureStore {
    /// Routes compiled rules into their sets, each set numbering its rules
    /// densely from zero in load order. Fails exactly where more than
    /// thirty-two rules land in one bitmap set.
    #[verifier::loop_isolation(false)]
    #[verifier::rlimit(100)]
    pub fn from_yaml_signatures(signatures: Vec<Signature>) -> (r: Result<
        SignatureStore,
        SigSetError,
    >)
        ensures
            ({
                let svs = Seq::new(signatures@.len() as nat, |i: int| signatures@[i]@);
                &&& (r is Ok <==> kind_filter(svs, 1).len() <= 32 && kind_filter(svs, 2).len()
                    <= 32 && kind_filter(svs, 3).len() <= 32)
                &&& (r matches Ok(st) ==> {
                    &&& st.wf()
                    &&& (distinct_shas_of(kind_filter(svs, 0)) ==> sha_slot_matches(
                        st.sha_set,
                        kind_filter(svs, 0),
                    ))
                    &&& heur_slot_matches(st.import_set, HEUR_MAGIC_U32, kind_filter(svs, 1))
                    &&& heur_slot_matches(st.sandbox_set, DYN_MAGIC_U32, kind_filter(svs, 2))
                    &&& heur_slot_matches(st.behavioural_set, BEH_MAGIC_U32, kind_filter(svs, 3))
                })
            }),
    {
        let ghost svs = Seq::new(signatures@.len() as nat, |i: int| signatures@[i]@);
        let mut sha_set = crate::sig_set::sha_set::ShaSet::new_empty(SET_MAGIC_U32);
        let mut heur_set = HeurSet::new_empty(HEUR_MAGIC_U32);
        let mut dyn_set = HeurSet::new_empty(DYN_MAGIC_U32);
        let mut beh_set = HeurSet::new_empty(BEH_MAGIC_U32);
        let mut signatures = signatures;
        let ghost total = svs.len() as int;
        let n_input = signatures.len();
        let mut t: usize = 0;
        proof {
            assert(total == n_input);
            assert(svs.take(0) =~= Seq::<SigView>::empty());
        }
        while signatures.len() > 0
            invariant
                t == total - signatures@.len(),
                0 <= t <= total,
                svs.len() == total,
                forall|i: int|
                    0 <= i < signatures@.len() ==> (#[trigger] signatures@[i])@ == svs[t + i],
                sha_set.wf(),
                heur_set.wf(),
                dyn_set.wf(),
                beh_set.wf(),
                heur_set.magic == HEUR_MAGIC_U32,
                dyn_set.magic == DYN_MAGIC_U32,
                beh_set.magic == BEH_MAGIC_U32,
                crate::sig_set::sigset_deserializer::distinct_shas(kind_filter(svs.take(t as int), 0))
                    ==> sha_content_matches(&sha_set, kind_filter(svs.take(t as int), 0)),
                heur_content_matches(&heur_set, kind_filter(svs.take(t as int), 1)),
                heur_content_matches(&dyn_set, kind_filter(svs.take(t as int), 2)),
                heur_content_matches(&beh_set, kind_filter(svs.take(t as int), 3)),
            decreases signatures@.len(),
        {
            let sig = signatures.remove(0);
            let ghost sv = sig@;
            proof {
                assert(sv == svs[t as int]);
                assert(svs.take(t + 1).drop_last() =~= svs.take(t as int));
                assert(svs.take(t + 1).last() == sv);
            }
            let kind_is_sha = matches!(sig.data, crate::sig_set::signature::SigData::Sha(_));
            if kind_is_sha {
                let ghost prevf = kind_filter(svs.take(t as int), 0);
                let ghost prev_set = sha_set;
                proof {
                    assert(kind_filter(svs.take(t + 1), 0) == prevf.push(sv));
                    assert(distinct_shas_of(prevf.push(sv)) ==> !prev_set.contains_sha(
                        sv.hashes[0],
                    ) && distinct_shas_of(prevf)) by {
                        if distinct_shas_of(prevf.push(sv)) {
                            assert forall|a: int, b: int| 0 <= a < b < prevf.len() implies (
                            #[trigger] prevf[a]).hashes[0] != (#[trigger] prevf[b]).hashes[0] by {
                                assert(prevf[a] == prevf.push(sv)[a] && prevf[b] == prevf.push(
                                    sv,
                                )[b]);
                            }
                            if prev_set.contains_sha(sv.hashes[0]) {
                                let w = choose|w: int|
                                    0 <= w < prev_set.sig_count() && #[trigger] prev_set.sha_at(w)
                                        == sv.hashes[0];
                                assert(prevf[w].hashes[0] == sv.hashes[0]);
                                assert(prevf.push(sv)[w] == prevf[w]);
                                assert(prevf.push(sv)[prevf.len() as int] == sv);
                                assert(false);
                            }
                        }
                    }
                }
                proof {
                    assert(sig@.kind == 0);
                }
                sha_set.append_signature(0, sig);
                proof {
                    assert(kind_filter(svs.take(t + 1), 1) == kind_filter(svs.take(t as int), 1));
                    assert(kind_filter(svs.take(t + 1), 2) == kind_filter(svs.take(t as int), 2));
                    assert(kind_filter(svs.take(t + 1), 3) == kind_filter(svs.take(t as int), 3));
                    assert(heur_content_matches(&heur_set, kind_filter(svs.take(t + 1), 1)));
                    assert(heur_content_matches(&dyn_set, kind_filter(svs.take(t + 1), 2)));
                    assert(heur_content_matches(&beh_set, kind_filter(svs.take(t + 1), 3)));
                    assert(!prev_set.contains_sha(sv.hashes[0]) ==> {
                        &&& sha_set.sig_count() == prev_set.sig_count() + 1
                        &&& (forall|i: int|
                            0 <= i < prev_set.sig_count() ==> (#[trigger] sha_set.sha_at(i)
                                == prev_set.sha_at(i) && sha_set.name_at(i) == prev_set.name_at(i)
                                && sha_set.description_at(i) == prev_set.description_at(i)))
                        &&& sha_set.sha_at(prev_set.sig_count()) == sv.hashes[0]
                        &&& sha_set.name_at(prev_set.sig_count()) == sv.name
                        &&& sha_set.description_at(prev_set.sig_count()) == sv.description
                    }) by {
                        if !prev_set.contains_sha(sv.hashes[0]) {
                            assert(sha_set.sig_count() == prev_set.sig_count() + 1);
                            assert(sha_set.sha_at(prev_set.sig_count()) == sv.hashes[0]);
                            assert(sha_set.name_at(prev_set.sig_count()) == sv.name);
                            assert(sha_set.description_at(prev_set.sig_count())
                                == sv.description);
                        }
                    }
                    assert(distinct_shas_of(prevf.push(sv)) ==> sha_content_matches(
                        &sha_set,
                        prevf.push(sv),
                    )) by {
                        if distinct_shas_of(prevf.push(sv)) {
                            assert(!prev_set.contains_sha(sv.hashes[0]));
                            assert(distinct_shas_of(prevf));
                            assert(sha_set.sig_count() == prevf.push(sv).len());
                            assert forall|i: int|
                                0 <= i < prevf.push(sv).len() implies sha_set.sha_at(i) == (
                            #[trigger] prevf.push(sv)[i]).hashes[0] && sha_set.name_at(i)
                                == prevf.push(sv)[i].name && sha_set.description_at(i)
                                == prevf.push(sv)[i].description by {
                                if i < prevf.len() {
                                    assert(prevf.push(sv)[i] == prevf[i]);
                                    assert(sha_set.sha_at(i) == prev_set.sha_at(i));
                                    assert(sha_set.name_at(i) == prev_set.name_at(i));
                                    assert(sha_set.description_at(i) == prev_set.description_at(
                                        i,
                                    ));
                                } else {
                                    assert(prevf.push(sv)[i] == sv);
                                }
                            }
                        }
                    }
                }
            } else {
                let target_kind = match &sig.data {
                    crate::sig_set::signature::SigData::Imports(_) => 1u32,
                    crate::sig_set::signature::SigData::Calls(_) => 2u32,
                    _ => 3u32,
                };
                if target_kind == 1 {
                    if heur_set.signatures_number() >= 32 {
                        proof {
                            lemma_filter_overflow(svs, 1, t as int);
                        }
                        return Err(SigSetError::IncorrectSignatureSizeError { size: 33 });
                    }
                    let id = heur_set.signatures_number() as u32;
                    let ghost prev_heur = kind_filter(svs.take(t as int), 1);
                    heur_set.append_signature(id, sig);
                    proof {
                        assert(kind_filter(svs.take(t + 1), 1) == prev_heur.push(sv));
                        assert(heur_content_matches(&heur_set, prev_heur.push(sv)));
                        assert(kind_filter(svs.take(t + 1), 2) == kind_filter(
                            svs.take(t as int),
                            2,
                        ));
                        assert(kind_filter(svs.take(t + 1), 3) == kind_filter(
                            svs.take(t as int),
                            3,
                        ));
                        assert(kind_filter(svs.take(t + 1), 0) == kind_filter(
                            svs.take(t as int),
                            0,
                        ));
                    }
                } else if target_kind == 2 {
                    if dyn_set.signatures_number() >= 32 {
                        proof {
                            lemma_filter_overflow(svs, 2, t as int);
                        }
                        return Err(SigSetError::IncorrectSignatureSizeError { size: 33 });
                    }
                    let id = dyn_set.signatures_number() as u32;
                    let ghost prev_dyn = kind_filter(svs.take(t as int), 2);
                    dyn_set.append_signature(id, sig);
                    proof {
                        assert(kind_filter(svs.take(t + 1), 2) == prev_dyn.push(sv));
                        assert(heur_content_matches(&dyn_set, prev_dyn.push(sv)));
                        assert(kind_filter(svs.take(t + 1), 1) == kind_filter(
                            svs.take(t as int),
                            1,
                        ));
                        assert(kind_filter(svs.take(t + 1), 3) == kind_filter(
                            svs.take(t as int),
                            3,
                        ));
                        assert(kind_filter(svs.take(t + 1), 0) == kind_filter(
                            svs.take(t as int),
                            0,
                        ));
                    }
                } else {
                    if beh_set.signatures_number() >= 32 {
                        proof {
                            lemma_filter_overflow(svs, 3, t as int);
                        }
                        return Err(SigSetError::IncorrectSignatureSizeError { size: 33 });
                    }
                    let id = beh_set.signatures_number() as u32;
                    let ghost prev_beh = kind_filter(svs.take(t as int), 3);
                    beh_set.append_signature(id, sig);
                    proof {
                        assert(kind_filter(svs.take(t + 1), 3) == prev_beh.push(sv));
                        assert(heur_content_matches(&beh_set, prev_beh.push(sv)));
                        assert(kind_filter(svs.take(t + 1), 1) == kind_filter(
                            svs.take(t as int),
                            1,
                        ));
                        assert(kind_filter(svs.take(t + 1), 2) == kind_filter(
                            svs.take(t as int),
                            2,
                        ));
                        assert(kind_filter(svs.take(t + 1), 0) == kind_filter(
                            svs.take(t as int),
                            0,
                        ));
                    }
                }
            }
            t = t + 1;
        }
        proof {
            assert(svs.take(total) =~= svs);
        }
        let sha_slot = if sha_set.signatures_number() > 0 {
            Some(sha_set)
        } else {
            None
        };
        let import_slot = if heur_set.signatures_number() > 0 {
            Some(heur_set)
        } else {
            None
        };
        let sandbox_slot = if dyn_set.signatures_number() > 0 {
            Some(dyn_set)
        } else {
            None
        };
        let behavioural_slot = if beh_set.signatures_number() > 0 {
            Some(beh_set)
        } else {
            None
        };
        Ok(SignatureStore {
            sha_set: sha_slot,
            import_set: import_slot,
            sandbox_set: sandbox_slot,
            behavioural_set: behavioural_slot,
        })
    }
}

/// Shorthand for pairwise distinct content digests among rule views.
pub open spec fn distinct_shas_of(views: Seq<SigView>) -> bool {
    crate::sig_set::sigset_deserializer::distinct_shas(views)
}

/// True when a bitmap set holds exactly the given rules, in order.
pub open spec fn heur_content_matches(h: &HeurSet, views: Seq<SigView>) -> bool {
    &&& h.sig_count() == views.len()
    &&& forall|i: int|
        0 <= i < views.len() ==> h.sig_name(i) == (#[trigger] views[i]).name
            && h.sig_description(i) == views[i].description && h.sig_preds(i) == views[i].hashes
}

/// True when a content-hash set holds exactly the given rules, in order.
pub open spec fn sha_content_matches(sh: &ShaSet, views: Seq<SigView>) -> bool {
    &&& sh.sig_count() == views.len()
    &&& forall|i: int|
        0 <= i < views.len() ==> sh.sha_at(i) == (#[trigger] views[i]).hashes[0] && sh.name_at(i)
            == views[i].name && sh.description_at(i) == views[i].description
}

/// A bitmap set already full at some prefix leaves the whole list over
/// the cap.
proof fn lemma_filter_overflow(svs: Seq<SigView>, kind: int, t: int)
    requires
        0 <= t < svs.len(),
        kind_filter(svs.take(t), kind).len() >= 32,
        svs[t].kind == kind,
    ensures
        kind_filter(svs, kind).len() > 32,
{
    assert(svs.take(t + 1).drop_last() =~= svs.take(t));
    assert(svs.take(t + 1).last() == svs[t]);
    assert(kind_filter(svs.take(t + 1), kind).len() >= 33);
    lemma_kind_filter_mono(svs, kind, t + 1, svs.len() as int);
    assert(svs.take(svs.len() as int) =~= svs);
}

} // verus!
