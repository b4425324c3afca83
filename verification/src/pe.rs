//! PE import fingerprints: every `(library, name)` pair of a file's import
//! table, hashed as lowercased `library+name`.
use vstd::prelude::*;

use crate::hashing::{sha256_from_vec_of_vec, sha256_of, Sha256Buff};
use crate::strfmt::{lower_bytes, to_ascii_lower};

verus! {

/// The import table a byte image carries, as `(library, name)` pairs, or
/// nothing where the bytes are no parseable object file: a function of the
/// bytes alone.
pub uninterp spec fn pe_imports_of(bytes: Seq<u8>) -> Option<Seq<(Seq<u8>, Seq<u8>)>>;

/// Relies on object::File::parse and Object::imports: the import table of
/// the image, one `(library, name)` pair per named import; ordinal-only
/// imports carry no name and are left out. Malformed input yields nothing.
#[verifier::external_body]
fn pe_import_pairs(bytes: &[u8]) -> (r: Option<Vec<(Vec<u8>, Vec<u8>)>>)
    ensures
        r matches Some(v) ==> pe_imports_of(bytes@) == Some(v.deep_view()),
        r is Some <==> pe_imports_of(bytes@) is Some,
{
    let file = object::File::parse(bytes).ok()?;
    let imports = <object::File as object::Object>::imports(&file).ok()?;
    let mut pairs: Vec<(Vec<u8>, Vec<u8>)> = Vec::new();
    for import in imports {
        let imp = import.ok()?;
        if let object::read::NameOrOrdinal::Name(n) = imp.name() {
            pairs.push((imp.library().to_vec(), n.to_vec()));
        }
    }
    Some(pairs)
}

/// The hash of one import: SHA-256 of the lowercased library, a `+`, and
/// the lowercased symbol name.
pub open spec fn import_hash(library: Seq<u8>, name: Seq<u8>) -> Seq<u8> {
    sha256_of(lower_bytes(library) + seq![43u8] + lower_bytes(name))@
}

/// The observation a file image yields for the import matcher: the hash of
/// each import-table entry, in table order; nothing for a non-object file.
pub open spec fn file_import_obs(bytes: Seq<u8>) -> Option<Seq<Seq<u8>>> {
    match pe_imports_of(bytes) {
        Some(ps) => Some(Seq::new(ps.len(), |k: int| import_hash(ps[k].0, ps[k].1))),
        None => None,
    }
}

/// Hashes one import pair.
pub fn import_to_sha(library: &[u8], name: &[u8]) -> (r: Sha256Buff)
    ensures
        r@ == import_hash(library@, name@),
{
    let mut parts: Vec<Vec<u8>> = Vec::new();
    parts.push(to_ascii_lower(library));
    let mut plus: Vec<u8> = Vec::new();
    plus.push(43);
    parts.push(plus);
    parts.push(to_ascii_lower(name));
    proof {
        let pv = parts.deep_view();
        assert(pv.len() == 3);
        assert(pv[0] =~= lower_bytes(library@));
        assert(pv[1] =~= seq![43u8]);
        assert(pv[2] =~= lower_bytes(name@));
        let tail2 = pv.drop_first().drop_first();
        assert(tail2.drop_first() =~= Seq::<Seq<u8>>::empty());
        assert(crate::hashing::concat_bytes(Seq::<Seq<u8>>::empty()) =~= Seq::<u8>::empty());
        assert(crate::hashing::concat_bytes(tail2) =~= pv[2]);
        assert(crate::hashing::concat_bytes(pv.drop_first()) =~= pv[1] + pv[2]);
        assert(crate::hashing::concat_bytes(pv) =~= pv[0] + (pv[1] + pv[2]));
        assert(pv[0] + (pv[1] + pv[2]) =~= lower_bytes(library@) + seq![43u8] + lower_bytes(
            name@,
        ));
    }
    sha256_from_vec_of_vec(parts)
}

/// The import hashes of a file image, where it parses as an object file.
pub fn get_file_imports(bytes: &[u8]) -> (r: Option<Vec<Sha256Buff>>)
    ensures
        r matches Some(v) ==> file_import_obs(bytes@) == Some(crate::hasher::sha_list_view(v@)),
        r is Some <==> file_import_obs(bytes@) is Some,
{
    let pairs = match pe_import_pairs(bytes) {
        Some(p) => p,
        None => {
            return None;
        },
    };
    let ghost ps = pairs.deep_view();
    let mut out: Vec<Sha256Buff> = Vec::new();
    let mut k: usize = 0;
    while k < pairs.len()
        invariant
            k <= pairs@.len(),
            ps == pairs.deep_view(),
            ps.len() == pairs@.len(),
            out@.len() == k,
            forall|j: int|
                0 <= j < k ==> (#[trigger] out@[j])@ == import_hash(ps[j].0, ps[j].1),
        decreases pairs@.len() - k,
    {
        let pair = &pairs[k];
        proof {
            assert(ps[k as int] == (pairs@[k as int].0@, pairs@[k as int].1@));
        }
        out.push(import_to_sha(pair.0.as_slice(), pair.1.as_slice()));
        k = k + 1;
    }
    proof {
        assert(crate::hasher::sha_list_view(out@) =~= Seq::new(
            ps.len(),
            |j: int| import_hash(ps[j].0, ps[j].1),
        ));
    }
    Some(out)
}

} // verus!
