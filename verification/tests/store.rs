use ramon::create_sig_store_from_string_vec;
use ramon::event::registry_set_value::RegistrySetValueEvent;
use ramon::hasher::MemberHasher;
use ramon::hashing::sha256_from_string;
use ramon::scan::{decide_event, Cleaner, EventDecision, ScanError};
use ramon::sig_store::SignatureStore;

#[test]
fn compile_and_eval_signature() {
    let sig = r#"name: Wacatac.exe
description: Watacat - behavioural detection
event:
  RegSetValue:
    value_name: Windows Live Messenger
    key_name: \REGISTRY\MACHINE\SOFTWARE\Microsoft\Windows\CurrentVersion\Run
    data: C:\WINDOWS\system32\evil.exe"#;

    let vec = vec![sig.to_string()];

    let sig_store = create_sig_store_from_string_vec(vec).unwrap();

    let e1 = RegistrySetValueEvent::new(
        123,
        234,
        r#"\REGISTRY\MACHINE\SOFTWARE\Microsoft\Windows\CurrentVersion\Run"#.to_string(),
        "Windows Live Messenger".to_string(),
        3,
        r#"C:\WINDOWS\system32\evil.exe"#.as_bytes().to_vec(),
    );

    let x = sig_store.eval_vec(e1.hash_members()).unwrap().unwrap();

    assert_eq!(x.desc, "Watacat - behavioural detection");
}

fn call_hash(name: &str) -> ramon::hashing::Sha256Buff {
    sha256_from_string(name.to_lowercase())
}

#[test]
fn two_call_rule_needs_both_calls() {
    let sig = "name: A\ndescription: d\ncalls:\n  - Sleep\n  - MessageBoxA\n";
    let store = create_sig_store_from_string_vec(vec![sig.to_string()]).unwrap();

    let full = vec![call_hash("Sleep"), call_hash("MessageBoxA"), call_hash("ShellExecuteA")];
    assert!(store.eval_sandboxed_file(full).unwrap().is_some());

    let partial = vec![call_hash("Sleep"), call_hash("ShellExecuteA")];
    assert!(store.eval_sandboxed_file(partial).unwrap().is_none());
}

#[test]
fn match_is_monotone_in_observations() {
    let sig = "name: A\ndescription: d\ncalls:\n  - Sleep\n";
    let store = create_sig_store_from_string_vec(vec![sig.to_string()]).unwrap();
    assert!(store.eval_sandboxed_file(vec![call_hash("Sleep")]).unwrap().is_some());
    assert!(
        store
            .eval_sandboxed_file(vec![call_hash("Other"), call_hash("Sleep"), call_hash("More")])
            .unwrap()
            .is_some()
    );
}

#[test]
fn lowest_id_rule_wins_tie() {
    let a = "name: A\ndescription: first\ncalls:\n  - Sleep\n";
    let b = "name: B\ndescription: second\ncalls:\n  - Sleep\n";
    let store = create_sig_store_from_string_vec(vec![a.to_string(), b.to_string()]).unwrap();
    let hit = store.eval_sandboxed_file(vec![call_hash("Sleep")]).unwrap().unwrap();
    assert_eq!(hit.name, "A");
}

#[test]
fn zero_pid_rule_matches_zero_pid_event() {
    let sig = "name: Z\ndescription: zero skip\nevent:\n  ProcessCreate:\n    path: C:\\evil.exe\n";
    let store = create_sig_store_from_string_vec(vec![sig.to_string()]).unwrap();
    let live = ramon::event::process_create::ProcessCreateEvent::new(0, 0, "C:\\evil.exe".to_string());
    assert!(store.eval_vec(live.hash_members()).unwrap().is_some());
}

#[test]
fn empty_import_list_is_refused() {
    let sig = "name: A\ndescription: d\nimports:\n";
    assert!(create_sig_store_from_string_vec(vec![sig.to_string()]).is_err());
}

#[test]
fn rule_text_without_name_is_refused() {
    let sig = "description: d\ncalls:\n  - Sleep\n";
    assert!(create_sig_store_from_string_vec(vec![sig.to_string()]).is_err());
}

#[test]
fn unknown_event_kind_is_refused() {
    let sig = "name: A\ndescription: d\nevent:\n  SomethingElse:\n    pid: 1\n";
    assert!(create_sig_store_from_string_vec(vec![sig.to_string()]).is_err());
}

#[test]
fn thirty_third_rule_in_one_set_is_refused() {
    let mut rules = Vec::new();
    for i in 0..33 {
        rules.push(format!("name: r{i}\ndescription: d\ncalls:\n  - api{i}\n"));
    }
    assert!(create_sig_store_from_string_vec(rules).is_err());
    let mut rules = Vec::new();
    for i in 0..32 {
        rules.push(format!("name: r{i}\ndescription: d\ncalls:\n  - api{i}\n"));
    }
    assert!(create_sig_store_from_string_vec(rules).is_ok());
}

#[test]
fn unknown_event_class_is_reported() {
    let store = SignatureStore::new(None, None, None, None);
    let frame = [b'X', b'X', b'X', b' ', 0, 0, 0, 0];
    let r = decide_event(&store, &frame);
    assert!(matches!(r, Err(ScanError::UnknownEvent)));
}

#[test]
fn behavioural_event_names_the_process_to_end() {
    let sig = "name: W\ndescription: beh\nevent:\n  RegSetValue:\n    value_name: Startup\n";
    let store = create_sig_store_from_string_vec(vec![sig.to_string()]).unwrap();
    let event = RegistrySetValueEvent::new(123, 0, "k".to_string(), "Startup".to_string(), 0, vec![]);
    let frame = event.serialize().unwrap();
    match decide_event(&store, &frame).unwrap() {
        EventDecision::Malicious(rep, Cleaner::Process(pid)) => {
            assert_eq!(pid, 123);
            assert_eq!(rep.desc, "beh");
        },
        _ => panic!("expected a behavioural match"),
    }
}

#[test]
fn sha_rule_matches_file_contents() {
    let digest = ramon::hashing::sha256_from_bytes(b"hello");
    let hex = ramon::hashing::convert_sha256_to_string(&digest);
    let sig = format!("name: A\ndescription: d\nsha256: {hex}\n");
    let store = create_sig_store_from_string_vec(vec![sig]).unwrap();
    let hit = store.eval_file_bytes(b"hello").unwrap();
    assert!(hit.is_some());
    let report = hit.unwrap();
    assert_eq!(report.name, "A");
    assert_eq!(
        report.cause,
        "Found sha: '2CF24DBA5FB0A30E26E83B2AC5B9E29E1B161E5C1FA7425E73043362938B9824'"
    );
    assert!(store.eval_file_bytes(b"other").unwrap().is_none());
}

#[test]
fn embedded_drain_stops_at_the_cap() {
    let digest = ramon::hashing::sha256_from_bytes(b"hello");
    let hex = ramon::hashing::convert_sha256_to_string(&digest);
    let sig = format!("name: A\ndescription: d\nsha256: {hex}\n");
    let store = create_sig_store_from_string_vec(vec![sig]).unwrap();
    let info = ramon::scan::FileScanInfo::real_file("f".to_string(), "/tmp/f".to_string());

    // Under the cap a matching file ends the scan with its path to delete.
    match ramon::scan::embedded_scan_step(&store, b"hello", &info, 0) {
        ramon::scan::ScanStep::Verdict(ramon::scan::ScanResult::Malicious(m, c)) => {
            assert!(m.into_string().contains("\"f\" -> Malicious"));
            assert!(matches!(c, ramon::scan::Cleaner::File(p) if p == "/tmp/f"));
        },
        _ => panic!("a matching file must end the scan"),
    }
    // A clean file under the cap is handed back for unpacking.
    assert!(matches!(
        ramon::scan::embedded_scan_step(&store, b"clean", &info, 0),
        ramon::scan::ScanStep::Continue
    ));
    // At the cap even a matching file counts as clean.
    assert!(matches!(
        ramon::scan::embedded_scan_step(&store, b"hello", &info, 0x100),
        ramon::scan::ScanStep::Verdict(ramon::scan::ScanResult::Clean)
    ));
}

#[test]
fn comments_and_blank_lines_are_skipped() {
    let sig = "# a comment\n\nname: A\ndescription: d\n\ncalls:\n  - Sleep\n# trailing\n";
    let store = create_sig_store_from_string_vec(vec![sig.to_string()]).unwrap();
    assert!(store.eval_sandboxed_file(vec![call_hash("Sleep")]).unwrap().is_some());
}

#[test]
fn unknown_attribute_is_refused() {
    let sig = "name: A\ndescription: d\nevent:\n  RegSetValue:\n    colour: red\n";
    assert!(create_sig_store_from_string_vec(vec![sig.to_string()]).is_err());
}

#[test]
fn two_bodies_in_one_rule_are_refused() {
    let sig = "name: A\ndescription: d\ncalls:\n  - Sleep\nimports:\n  - a.dll+b\n";
    assert!(create_sig_store_from_string_vec(vec![sig.to_string()]).is_err());
}
