use ramon::event::registry_set_value::RegistrySetValueEvent;
use ramon::hasher::MemberHasher;
use ramon::sig_set::SigSetError;
use ramon::{create_sig_store_from_string_vec, deserialize_sig_store, seralize_sig_store};

fn sample_store() -> ramon::sig_store::SignatureStore {
    let beh = "name: W\ndescription: beh rule\nevent:\n  RegSetValue:\n    value_name: Startup\n";
    let calls = "name: C\ndescription: call rule\ncalls:\n  - Sleep\n  - BlockInput\n";
    let digest = ramon::hashing::sha256_from_bytes(b"hello");
    let hex = ramon::hashing::convert_sha256_to_string(&digest);
    let sha = format!("name: S\ndescription: sha rule\nsha256: {hex}\n");
    create_sig_store_from_string_vec(vec![beh.to_string(), calls.to_string(), sha]).unwrap()
}

#[test]
fn bundle_round_trip_keeps_every_rule() {
    let store = sample_store();
    let bytes = seralize_sig_store(&store).unwrap();
    let back = deserialize_sig_store(bytes.as_slice()).unwrap();

    let event = RegistrySetValueEvent::new(9, 0, "k".to_string(), "Startup".to_string(), 0, vec![]);
    let before = store.eval_vec(event.hash_members()).unwrap().unwrap();
    let after = back.eval_vec(event.hash_members()).unwrap().unwrap();
    assert_eq!(before.name, after.name);
    assert_eq!(before.desc, after.desc);
    assert_eq!(after.desc, "beh rule");

    let call = vec![
        ramon::hashing::sha256_from_string("sleep".to_string()),
        ramon::hashing::sha256_from_string("blockinput".to_string()),
    ];
    assert!(back.eval_sandboxed_file(call).unwrap().is_some());
    assert!(back.eval_file_bytes(b"hello").unwrap().is_some());
    assert!(back.eval_file_bytes(b"bye").unwrap().is_none());

    let again = seralize_sig_store(&back).unwrap();
    assert_eq!(bytes, again);
}

#[test]
fn corrupted_data_region_is_refused() {
    let store = sample_store();
    let bytes = seralize_sig_store(&store).unwrap();
    // One bit flipped inside the first set's data region.
    let mut bad = bytes.clone();
    let region_byte = 8 + 44 + 5;
    bad[region_byte] ^= 1;
    match deserialize_sig_store(bad.as_slice()) {
        Err(SigSetError::IncorrectChecksumError { .. }) => {},
        Err(SigSetError::DecodeError) => {},
        other => panic!("a corrupted bundle must be refused, got {:?}", other.is_ok()),
    }
}

#[test]
fn corrupted_magic_is_refused() {
    let store = sample_store();
    let mut bytes = seralize_sig_store(&store).unwrap();
    bytes[0] ^= 0xFF;
    assert!(matches!(
        deserialize_sig_store(bytes.as_slice()),
        Err(SigSetError::IncorrectMagicError { .. })
    ));
}

#[test]
fn truncated_bundle_is_refused() {
    let store = sample_store();
    let bytes = seralize_sig_store(&store).unwrap();
    assert!(deserialize_sig_store(&bytes[..4]).is_err());
    assert!(deserialize_sig_store(&bytes[..bytes.len() - 1]).is_err());
}

#[test]
fn empty_store_serializes_to_bare_header() {
    let store = ramon::sig_store::SignatureStore::new(None, None, None, None);
    let bytes = seralize_sig_store(&store).unwrap();
    assert_eq!(bytes.len(), 8);
    let back = deserialize_sig_store(bytes.as_slice()).unwrap();
    assert!(back.eval_vec(vec![]).unwrap().is_none());
}
