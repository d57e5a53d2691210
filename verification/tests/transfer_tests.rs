use spfiler::identity::Identity;
use spfiler::registry::FileCoordinator;
use spfiler::transfer::{
    field_matches, plan_download, storage_path, upload_target, DownloadError, UploadError,
};

const SAMPLE_HI: u64 = 0xa1a2a3a4b1b2c1c2;
const SAMPLE_LO: u64 = 0xd1d2d3d4d5d6d7d8;
const SAMPLE_TEXT: &str = "a1a2a3a4-b1b2-c1c2-d1d2-d3d4d5d6d7d8";

#[test]
fn identity_text_is_hyphenated_lowercase_hex() {
    let id = Identity { hi: SAMPLE_HI, lo: SAMPLE_LO };
    assert_eq!(id.to_text(), SAMPLE_TEXT);
}

#[test]
fn identity_text_matches_the_uuid_rendering() {
    let value: u128 = ((SAMPLE_HI as u128) << 64) | SAMPLE_LO as u128;
    let theirs = uuid::Uuid::from_u128(value).to_string();
    let ours = Identity { hi: SAMPLE_HI, lo: SAMPLE_LO }.to_text();
    assert_eq!(ours, theirs);
}

#[test]
fn storage_path_is_prefix_identity_filename() {
    let id = Identity { hi: SAMPLE_HI, lo: SAMPLE_LO };
    let path = storage_path(&"files".to_string(), id, &"a.txt".to_string());
    assert_eq!(path, format!("files/{}/a.txt", SAMPLE_TEXT));
}

#[test]
fn field_matches_requires_sentinel_name_and_same_filename() {
    let declared = "a.txt".to_string();
    assert!(field_matches(&"filename".to_string(), &"a.txt".to_string(), &declared));
    assert!(!field_matches(&"file".to_string(), &"a.txt".to_string(), &declared));
    assert!(!field_matches(&"filename".to_string(), &"b.txt".to_string(), &declared));
}

#[test]
fn upload_target_rejects_unknown_identity() {
    let reg = FileCoordinator::new();
    let id = Identity { hi: 1, lo: 2 };
    let r = upload_target(&reg, id, &"a.txt".to_string());
    assert!(matches!(r, Err(UploadError::UnknownIdentity)));
}

#[test]
fn upload_target_names_the_storage_path() {
    let mut reg = FileCoordinator::new();
    let id = Identity { hi: SAMPLE_HI, lo: SAMPLE_LO };
    reg.register(id);
    let path = upload_target(&reg, id, &"a.txt".to_string()).unwrap();
    assert_eq!(path, format!("files/{}/a.txt", SAMPLE_TEXT));
}

#[test]
fn download_errors_distinguish_identity_from_filename() {
    let mut reg = FileCoordinator::new();
    let known = Identity { hi: 1, lo: 2 };
    let unknown = Identity { hi: 3, lo: 4 };
    reg.register(known);
    reg.record_upload(known, "a.txt".to_string()).unwrap();
    assert!(matches!(
        plan_download(&reg, unknown, &"a.txt".to_string()),
        Err(DownloadError::UnknownIdentity)
    ));
    assert!(matches!(
        plan_download(&reg, known, &"b.txt".to_string()),
        Err(DownloadError::FileNotRecorded)
    ));
}

#[test]
fn download_reads_from_the_upload_path() {
    let mut reg = FileCoordinator::new();
    let id = Identity { hi: 9, lo: 9 };
    reg.register(id);
    let filename = "data.bin".to_string();
    let wrote_to = upload_target(&reg, id, &filename).unwrap();
    reg.record_upload(id, filename.clone()).unwrap();
    let reads_from = plan_download(&reg, id, &filename).unwrap();
    assert_eq!(wrote_to, reads_from);
}

#[test]
fn paths_of_distinct_identities_differ() {
    let prefix = "files".to_string();
    let a = Identity { hi: 1, lo: 0 };
    let b = Identity { hi: 1, lo: 1 };
    let pa = storage_path(&prefix, a, &"same.txt".to_string());
    let pb = storage_path(&prefix, b, &"same.txt".to_string());
    assert_ne!(pa, pb);
}
