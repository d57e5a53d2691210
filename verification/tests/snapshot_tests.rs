use spfiler::identity::Identity;
use spfiler::registry::FileCoordinator;
use spfiler::snapshot::decode_snapshot;

fn sample_registry() -> FileCoordinator {
    let mut reg = FileCoordinator::new();
    let a = Identity { hi: 0xa1a2a3a4b1b2c1c2, lo: 0xd1d2d3d4d5d6d7d8 };
    let b = Identity { hi: 1, lo: 2 };
    reg.register(a);
    reg.register(b);
    reg.record_upload(a, "report.pdf".to_string()).unwrap();
    reg.record_upload(a, "".to_string()).unwrap();
    reg.record_upload(b, "snøfall-ß-文件.bin".to_string()).unwrap();
    reg
}

#[test]
fn save_then_load_reproduces_the_registry() {
    let reg = sample_registry();
    let text = reg.encode_snapshot();
    let back = decode_snapshot(text.as_str()).expect("own snapshot must load");
    assert_eq!(back.storage_prefix, reg.storage_prefix);
    assert_eq!(back.list.len(), reg.list.len());
    for (orig, restored) in reg.list.iter().zip(back.list.iter()) {
        assert_eq!(orig.id, restored.id);
        assert_eq!(orig.files, restored.files);
    }
}

#[test]
fn empty_registry_round_trips() {
    let reg = FileCoordinator::new();
    let text = reg.encode_snapshot();
    let back = decode_snapshot(text.as_str()).expect("empty snapshot must load");
    assert_eq!(back.storage_prefix, "files");
    assert!(back.list.is_empty());
}

#[test]
fn empty_text_is_not_a_snapshot() {
    assert!(decode_snapshot("").is_none());
}

#[test]
fn garbage_is_not_a_snapshot() {
    assert!(decode_snapshot("this is not a snapshot").is_none());
    assert!(decode_snapshot("0000000000000005files").is_none());
}

#[test]
fn truncated_snapshot_is_rejected() {
    let text = sample_registry().encode_snapshot();
    let cut: String = text.chars().take(text.chars().count() - 1).collect();
    assert!(decode_snapshot(cut.as_str()).is_none());
}

#[test]
fn extended_snapshot_is_rejected() {
    let mut text = sample_registry().encode_snapshot();
    text.push('0');
    assert!(decode_snapshot(text.as_str()).is_none());
}

#[test]
fn snapshot_with_duplicate_identities_is_rejected() {
    let mut reg = FileCoordinator::new();
    reg.register(Identity { hi: 5, lo: 6 });
    let once = reg.encode_snapshot();
    // Splice the single entry in twice and fix the count to two.
    let header_len = 16 + "files".len() + 16;
    let (head, entry) = once.split_at(header_len);
    let mut forged = String::new();
    forged.push_str(&head[..16 + "files".len()]);
    forged.push_str("0000000000000002");
    forged.push_str(entry);
    forged.push_str(entry);
    assert!(decode_snapshot(forged.as_str()).is_none());
}

#[test]
fn loading_what_was_saved_twice_is_stable() {
    let reg = sample_registry();
    let text = reg.encode_snapshot();
    let back = decode_snapshot(text.as_str()).unwrap();
    let text2 = back.encode_snapshot();
    assert_eq!(text, text2);
}
