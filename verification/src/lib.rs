//! Core of a behavioural antimalware engine: a signature store that compiles
//! detection rules into a checksummed binary bundle, and matchers that hold
//! file contents, PE imports, sandbox API calls and kernel events against it.
use vstd::prelude::*;

pub mod hashing;
pub mod strfmt;
pub mod wire;
pub mod yaml;
pub mod enums;
pub mod event;
pub mod hasher;
pub mod pe;
pub mod sig_set;
pub mod scan;
pub mod sig_store;
pub mod detection;

use sig_set::signature::Signature;
use sig_set::SigSetError;
use sig_store::SignatureStore;

verus! {

/// Reads a whole bundle back into a store.
pub fn deserialize_sig_store(bytes: &[u8]) -> (r: Result<SignatureStore, SigSetError>)
    ensures
        r is Ok <==> sig_store::spec_parse_store(bytes@) is Some,
        r matches Ok(st) ==> st.wf() && (sig_store::spec_parse_store(bytes@) matches Some(list)
            && sig_store::store_matches_list(&st, list)),
{
    SignatureStore::deserialize(bytes)
}

/// The rule a single text compiles to: its grammar reading, its body
/// compiled, where both succeed.
pub open spec fn spec_compile_text(t: Seq<char>) -> Option<sig_set::signature::SigView> {
    match yaml::spec_parse_rule_text(t) {
        Some(y) => if sig_set::signature::spec_yaml_data_ok(y.data) {
            Some(
                sig_set::signature::SigView {
                    name: y.name,
                    description: y.description,
                    kind: sig_set::signature::spec_yaml_data_view(y.data).0,
                    hashes: sig_set::signature::spec_yaml_data_view(y.data).1,
                },
            )
        } else {
            None
        },
        None => None,
    }
}

/// The rules a list of texts compiles to, in order, where every text
/// compiles.
pub open spec fn spec_compiled_views(texts: Seq<Seq<char>>) -> Option<
    Seq<sig_set::signature::SigView>,
>
    decreases texts.len(),
{
    if texts.len() == 0 {
        Some(Seq::empty())
    } else {
        match spec_compiled_views(texts.drop_last()) {
            None => None,
            Some(prefix) => match spec_compile_text(texts.last()) {
                None => None,
                Some(v) => Some(prefix.push(v)),
            },
        }
    }
}

/// A text that fails to compile fails the whole list.
proof fn lemma_compiled_prefix_none(texts: Seq<Seq<char>>, j: int)
    requires
        0 <= j <= texts.len(),
        spec_compiled_views(texts.take(j)) is None,
    ensures
        spec_compiled_views(texts) is None,
    decreases texts.len() - j,
{
    if j < texts.len() {
        assert(texts.take(j + 1).drop_last() =~= texts.take(j));
        lemma_compiled_prefix_none(texts, j + 1);
    } else {
        assert(texts.take(j) =~= texts);
    }
}

/// Compiles rule texts into a store: each text parses and compiles as its
/// body kind demands, and the rules are routed into their sets, each set
/// numbering its rules densely from zero in input order. Fails exactly
/// where a text does not compile or over thirty-two rules land in one
/// bitmap set.
pub fn create_sig_store_from_string_vec(vec: Vec<String>) -> (r: Result<
    SignatureStore,
    SigSetError,
>)
    ensures
        ({
            let texts = Seq::new(vec@.len() as nat, |i: int| vec@[i]@);
            &&& (r is Ok <==> (spec_compiled_views(texts) matches Some(views)
                && sig_store::kind_filter(views, 1).len() <= 32 && sig_store::kind_filter(
                views,
                2,
            ).len() <= 32 && sig_store::kind_filter(views, 3).len() <= 32))
            &&& (r matches Ok(st) ==> st.wf() && (spec_compiled_views(texts) matches Some(views)
                ==> {
                &&& (sig_store::distinct_shas_of(sig_store::kind_filter(views, 0))
                    ==> sig_store::sha_slot_matches(st.sha_set, sig_store::kind_filter(views, 0)))
                &&& sig_store::heur_slot_matches(
                    st.import_set,
                    sig_set::HEUR_MAGIC_U32,
                    sig_store::kind_filter(views, 1),
                )
                &&& sig_store::heur_slot_matches(
                    st.sandbox_set,
                    sig_set::DYN_MAGIC_U32,
                    sig_store::kind_filter(views, 2),
                )
                &&& sig_store::heur_slot_matches(
                    st.behavioural_set,
                    sig_set::BEH_MAGIC_U32,
                    sig_store::kind_filter(views, 3),
                )
            }))
        }),
{
    let ghost texts = Seq::new(vec@.len() as nat, |i: int| vec@[i]@);
    let mut signatures: Vec<Signature> = Vec::new();
    let mut i: usize = 0;
    proof {
        assert(texts.take(0) =~= Seq::<Seq<char>>::empty());
    }
    while i < vec.len()
        invariant
            i <= vec@.len(),
            texts == Seq::new(vec@.len() as nat, |k: int| vec@[k]@),
            signatures@.len() == i,
            spec_compiled_views(texts.take(i as int)) == Some(
                Seq::new(signatures@.len() as nat, |k: int| signatures@[k]@),
            ),
        decreases vec@.len() - i,
    {
        let ghost svs_prev = Seq::new(signatures@.len() as nat, |k: int| signatures@[k]@);
        proof {
            assert(texts.take(i + 1).drop_last() =~= texts.take(i as int));
            assert(texts.take(i + 1).last() == vec@[i as int]@);
        }
        let yaml_sig = match yaml::parse_signature_text(vec[i].as_str()) {
            Ok(y) => y,
            Err(e) => {
                proof {
                    assert(spec_compiled_views(texts.take(i + 1)) is None);
                    lemma_compiled_prefix_none(texts, i + 1);
                }
                return Err(e);
            },
        };
        let sig = match Signature::from_yaml(yaml_sig) {
            Ok(sg) => sg,
            Err(e) => {
                proof {
                    assert(spec_compiled_views(texts.take(i + 1)) is None);
                    lemma_compiled_prefix_none(texts, i + 1);
                }
                return Err(e);
            },
        };
        signatures.push(sig);
        proof {
            assert(Seq::new(signatures@.len() as nat, |k: int| signatures@[k]@) =~= svs_prev.push(
                sig@,
            ));
        }
        i = i + 1;
    }
    proof {
        assert(texts.take(texts.len() as int) =~= texts);
    }
    match SignatureStore::from_yaml_signatures(signatures) {
        Ok(st) => Ok(st),
        Err(e) => Err(e),
    }
}

/// Lays a whole store out as bundle bytes.
pub fn seralize_sig_store(sig_store: &SignatureStore) -> (r: Result<Vec<u8>, SigSetError>)
    requires
        sig_store.wf(),
    ensures
        r matches Ok(v) ==> v@ == sig_store::store_bytes(sig_store),
        r is Ok <==> sig_store::slots_ok(sig_store::store_slots(sig_store)),
{
    sig_store.serialize()
}

/// Rounds a byte count up to the next multiple of four, as the event wire
/// format requires for string payloads.
pub fn align(size: usize) -> (r: u32)
    requires
        size + 3 <= u32::MAX,
    ensures
        r == 4 * ((size + 3) / 4),
{
    if size % 4 == 0 {
        size as u32
    } else {
        (size + (4 - size % 4)) as u32
    }
}

} // verus!
