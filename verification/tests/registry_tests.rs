use spfiler::identity::Identity;
use spfiler::registry::{FileCoordinator, RegistryError};

fn id(n: u64) -> Identity {
    Identity { hi: n, lo: n.wrapping_mul(31) }
}

#[test]
fn fresh_registry_is_empty_with_default_prefix() {
    let reg = FileCoordinator::new();
    assert_eq!(reg.storage_prefix, "files");
    assert!(reg.list.is_empty());
    assert!(reg.list_files(id(1)).is_err());
}

#[test]
fn list_files_unknown_identity_is_not_found() {
    let mut reg = FileCoordinator::new();
    reg.register(id(7));
    assert!(matches!(reg.list_files(id(8)), Err(RegistryError::NotFound)));
}

#[test]
fn freshly_registered_identity_lists_empty() {
    let mut reg = FileCoordinator::new();
    reg.register(id(7));
    let files = reg.list_files(id(7)).expect("registered identity must list");
    assert!(files.is_empty());
}

#[test]
fn record_upload_appends_in_order() {
    let mut reg = FileCoordinator::new();
    reg.register(id(1));
    reg.record_upload(id(1), "a.txt".to_string()).unwrap();
    reg.record_upload(id(1), "b.txt".to_string()).unwrap();
    assert_eq!(reg.list_files(id(1)).unwrap(), vec!["a.txt".to_string(), "b.txt".to_string()]);
}

#[test]
fn record_upload_unknown_identity_fails() {
    let mut reg = FileCoordinator::new();
    let r = reg.record_upload(id(1), "a.txt".to_string());
    assert!(matches!(r, Err(RegistryError::NotFound)));
}

#[test]
fn duplicate_uploads_keep_both_records() {
    let mut reg = FileCoordinator::new();
    reg.register(id(1));
    reg.record_upload(id(1), "a.txt".to_string()).unwrap();
    reg.record_upload(id(1), "a.txt".to_string()).unwrap();
    let files = reg.list_files(id(1)).unwrap();
    assert_eq!(files.len(), 2);
    assert_eq!(files, vec!["a.txt".to_string(), "a.txt".to_string()]);
}

#[test]
fn lookup_reports_recorded_files_only() {
    let mut reg = FileCoordinator::new();
    reg.register(id(1));
    reg.record_upload(id(1), "a.txt".to_string()).unwrap();
    assert_eq!(reg.lookup(id(1), &"a.txt".to_string()), Some("a.txt".to_string()));
    assert_eq!(reg.lookup(id(1), &"b.txt".to_string()), None);
    assert_eq!(reg.lookup(id(2), &"a.txt".to_string()), None);
}

#[test]
fn uploads_to_distinct_identities_do_not_interfere() {
    let mut reg = FileCoordinator::new();
    reg.register(id(1));
    reg.register(id(2));
    reg.record_upload(id(1), "one.bin".to_string()).unwrap();
    reg.record_upload(id(2), "two.bin".to_string()).unwrap();
    assert_eq!(reg.list_files(id(1)).unwrap(), vec!["one.bin".to_string()]);
    assert_eq!(reg.list_files(id(2)).unwrap(), vec!["two.bin".to_string()]);
}

#[test]
fn register_fresh_identities_are_distinct() {
    let mut reg = FileCoordinator::new();
    let mut seen: Vec<Identity> = Vec::new();
    for _ in 0..100 {
        let new = reg.register_fresh();
        assert!(!seen.contains(&new), "fresh identity repeated");
        assert_eq!(new.hi & 0xf000, 0x4000, "version nibble must be 4");
        assert_eq!(
            new.lo & 0xc000_0000_0000_0000,
            0x8000_0000_0000_0000,
            "variant bits must be 10"
        );
        seen.push(new);
    }
    assert_eq!(reg.list.len(), 100);
}

#[test]
fn reregistering_resets_the_file_list() {
    let mut reg = FileCoordinator::new();
    reg.register(id(1));
    reg.record_upload(id(1), "a.txt".to_string()).unwrap();
    reg.register(id(1));
    assert!(reg.list_files(id(1)).unwrap().is_empty());
    assert_eq!(reg.list.len(), 1);
}
