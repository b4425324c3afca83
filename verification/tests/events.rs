use ramon::event::file_create::FileCreateEvent;
use ramon::event::get_event_type;
use ramon::event::process_create::ProcessCreateEvent;
use ramon::event::registry_set_value::RegistrySetValueEvent;
use ramon::event::{FILE_CREATE_CLASS, PROCESS_CREATE_CLASS, REGISTRY_SET_VALUE_CLASS};
use ramon::hasher::{member_to_hash, MemberHasher};

#[test]
fn file_create_simple() {
    let e1 = FileCreateEvent::new("elo mordo".to_string());
    let event_buff = e1.serialize().unwrap();

    let event_type = get_event_type(event_buff.as_slice());
    assert_eq!(event_type, FILE_CREATE_CLASS);

    let e2 = FileCreateEvent::deserialize(event_buff.as_slice()).unwrap();
    assert_eq!(e1.path, e2.path);
}

#[test]
fn process_create_simple() {
    let e1 = ProcessCreateEvent::new(123, 234, "elo mordo".to_string());
    let event_buff = e1.serialize().unwrap();

    let event_type = get_event_type(event_buff.as_slice());
    assert_eq!(event_type, PROCESS_CREATE_CLASS);

    let e2 = ProcessCreateEvent::deserialize(event_buff.as_slice()).unwrap();
    assert_eq!(e1.pid, e2.pid);
    assert_eq!(e1.parent_id, e2.parent_id);
    assert_eq!(e1.path, e2.path);
}

#[test]
fn registry_set_value_simple() {
    let e1 = RegistrySetValueEvent::new(
        123,
        234,
        "key name".to_string(),
        "value_name".to_string(),
        345,
        vec![1, 8, 7, 4],
    );
    let event_buff = e1.serialize().unwrap();

    let event_type = get_event_type(event_buff.as_slice());
    assert_eq!(event_type, REGISTRY_SET_VALUE_CLASS);

    let e2 = RegistrySetValueEvent::deserialize(event_buff.as_slice()).unwrap();
    assert_eq!(e1.pid, e2.pid);
    assert_eq!(e1.tid, e2.tid);
    assert_eq!(e1.key_name, e2.key_name);
    assert_eq!(e1.value_name, e2.value_name);
    assert_eq!(e1.data_type, e2.data_type);
    assert_eq!(e1.data, e2.data);
}

#[test]
fn hash_test() {
    let e1 = RegistrySetValueEvent::new(
        123,
        234,
        "key name".to_string(),
        "value_name".to_string(),
        345,
        vec![0x65, 0x6C, 0x6F, 0x20, 0x0, 0x0, 0x0, 0x0],
    );
    let v = e1.hash_members();
    assert_eq!(
        v[0],
        [
            84, 206, 227, 212, 1, 254, 12, 72, 89, 14, 153, 91, 71, 68, 184, 166, 163, 0, 227,
            153, 33, 253, 197, 63, 127, 55, 110, 14, 114, 191, 150, 20
        ]
    );
}

#[test]
fn member_hash_is_canonical_string_hash() {
    let direct = ramon::hashing::sha256_from_string("RegSetValue+pid+123".to_string());
    let member = member_to_hash("RegSetValue", "pid", "123");
    assert_eq!(direct, member);
}

#[test]
fn truncated_event_fails_to_decode() {
    assert!(FileCreateEvent::deserialize(&[1, 2]).is_err());
    let e1 = ProcessCreateEvent::new(7, 8, "x".to_string());
    let buff = e1.serialize().unwrap();
    assert!(ProcessCreateEvent::deserialize(&buff[..buff.len() - 1]).is_err());
}

#[test]
fn registry_data_is_hashed_only_for_string_types() {
    // data_type 1 is REG_SZ: the UTF-16 data contributes a hash.
    let textual = RegistrySetValueEvent::new(
        1,
        2,
        "k".to_string(),
        "v".to_string(),
        1,
        vec![0x61, 0x00, 0x62, 0x00],
    );
    // data_type 3 is REG_BINARY: the same data contributes nothing.
    let binary = RegistrySetValueEvent::new(
        1,
        2,
        "k".to_string(),
        "v".to_string(),
        3,
        vec![0x61, 0x00, 0x62, 0x00],
    );
    assert_eq!(textual.hash_members().len(), 6);
    assert_eq!(binary.hash_members().len(), 5);
}

#[test]
fn zero_attributes_are_skipped() {
    let all_zero = ProcessCreateEvent::new(0, 0, "".to_string());
    assert_eq!(all_zero.hash_members().len(), 0);
    let pid_only = ProcessCreateEvent::new(5, 0, "".to_string());
    assert_eq!(pid_only.hash_members().len(), 1);
}

#[test]
fn align_rounds_up_to_four() {
    assert_eq!(ramon::align(0), 0);
    assert_eq!(ramon::align(1), 4);
    assert_eq!(ramon::align(4), 4);
    assert_eq!(ramon::align(5), 8);
}

#[test]
fn decimal_rendering_is_exact() {
    let s = ramon::strfmt::u32_to_string(1234567890);
    assert_eq!(s, "1234567890");
    assert_eq!(ramon::strfmt::u32_to_string(0), "0");
}

#[test]
fn hex_encode_and_parse_round_trip() {
    let digest = ramon::hashing::sha256_from_bytes(b"hello");
    let text = ramon::hashing::convert_sha256_to_string(&digest);
    assert_eq!(
        text,
        "2CF24DBA5FB0A30E26E83B2AC5B9E29E1B161E5C1FA7425E73043362938B9824"
    );
    let parsed = ramon::hashing::sha256_from_sha_string(&text).unwrap();
    assert_eq!(parsed, digest);
}

#[test]
fn bad_hex_is_refused() {
    assert!(ramon::hashing::sha256_from_sha_string("zz").is_err());
    assert!(ramon::hashing::sha256_from_sha_string("abc").is_err());
    assert!(ramon::hashing::sha256_from_sha_string("abcd").is_err());
}
