use spfiler::identity::Identity;
use spfiler::registry::FileCoordinator;
use spfiler::responses::{
    content_disposition, download_error_message, exit_response, list_response, register_response,
    upload_reply, ListFilesResponse,
};
use spfiler::transfer::{plan_download, DownloadError, UploadError};

#[test]
fn listing_display_for_unknown_identity() {
    let resp = ListFilesResponse { message: "m".to_string(), files: None };
    assert_eq!(resp.display_string(), "WHOOPS: Server doesn't know this ID!");
}

#[test]
fn listing_display_for_empty_list() {
    let resp = ListFilesResponse { message: "m".to_string(), files: Some(vec![]) };
    assert_eq!(resp.display_string(), "FILES:\n- <EMPTY>\n");
}

#[test]
fn listing_display_names_each_file() {
    let resp = ListFilesResponse {
        message: "m".to_string(),
        files: Some(vec!["a.txt".to_string(), "b.bin".to_string()]),
    };
    assert_eq!(resp.display_string(), "FILES:\n- `a.txt`;- `b.bin`;");
}

#[test]
fn register_response_carries_identity_and_warning() {
    let id = Identity { hi: 0xa1a2a3a4b1b2c1c2, lo: 0xd1d2d3d4d5d6d7d8 };
    let r = register_response(id);
    assert_eq!(r.id, "a1a2a3a4-b1b2-c1c2-d1d2-d3d4d5d6d7d8");
    assert_eq!(
        r.message,
        "Your new file sharing ID has been registered! Do NOT lose this ID, it is your key to sharing files via this app!"
    );
}

#[test]
fn list_response_for_unknown_identity() {
    let reg = FileCoordinator::new();
    let (found, resp) = list_response(&reg, Identity { hi: 1, lo: 2 });
    assert!(!found);
    assert_eq!(resp.message, "Sorry, no such ID has been registered yet!");
    assert!(resp.files.is_none());
}

#[test]
fn list_response_for_known_identity_names_it() {
    let mut reg = FileCoordinator::new();
    let id = Identity { hi: 0xa1a2a3a4b1b2c1c2, lo: 0xd1d2d3d4d5d6d7d8 };
    reg.register(id);
    reg.record_upload(id, "x.bin".to_string()).unwrap();
    let (found, resp) = list_response(&reg, id);
    assert!(found);
    assert_eq!(resp.message, "Found files for id a1a2a3a4-b1b2-c1c2-d1d2-d3d4d5d6d7d8!");
    assert_eq!(resp.files, Some(vec!["x.bin".to_string()]));
}

#[test]
fn upload_replies_match_each_outcome() {
    let (ok, msg) = upload_reply(&Ok(()));
    assert!(ok);
    assert_eq!(msg, "File uploaded!");

    let (ok, msg) = upload_reply(&Err(UploadError::UnknownIdentity));
    assert!(!ok);
    assert_eq!(msg, "ERROR: No such ID has been registered, can't upload any files!");

    let (ok, msg) = upload_reply(&Err(UploadError::NoMatchingField));
    assert!(!ok);
    assert_eq!(msg, "Received request to upload, but couldn't start receiving data?..");

    let (ok, msg) = upload_reply(&Err(UploadError::WriteFailed {
        cause: "disk full".to_string(),
        path_text: "Some(\"files/x/a.txt\")".to_string(),
    }));
    assert!(!ok);
    assert_eq!(
        msg,
        "Couldn't upload chunk for this reason: `disk full`, path being written to: Some(\"files/x/a.txt\")"
    );
}

#[test]
fn download_error_messages_match_each_variant() {
    assert_eq!(
        download_error_message(&DownloadError::UnknownIdentity),
        "Specified ID does not exist."
    );
    assert_eq!(
        download_error_message(&DownloadError::FileNotRecorded),
        "File not found within this ID."
    );
    assert_eq!(
        download_error_message(&DownloadError::StateCorrupted { cause: "gone".to_string() }),
        "ERROR: file is present in the server state, but is not physically there. Something went horribly wrong. The server state is corrupted?.. The error returned is: gone"
    );
}

#[test]
fn content_disposition_quotes_the_filename() {
    assert_eq!(
        content_disposition(&"x.bin".to_string()),
        "attachment; filename=\"x.bin\""
    );
}

#[test]
fn exit_response_text() {
    assert_eq!(exit_response().response, "Yeah, it wasn't all that fun anyway...");
}

#[test]
fn scenario_register_upload_list_download() {
    let mut reg = FileCoordinator::new();
    let u1 = reg.register_fresh();

    let (found, listing) = list_response(&reg, u1);
    assert!(found);
    assert_eq!(listing.files, Some(vec![]));

    let target = spfiler::transfer::upload_target(&reg, u1, &"x.bin".to_string()).unwrap();
    assert_eq!(target, format!("files/{}/x.bin", u1.to_text()));
    reg.record_upload(u1, "x.bin".to_string()).unwrap();
    let (ok, msg) = upload_reply(&Ok(()));
    assert!(ok);
    assert_eq!(msg, "File uploaded!");

    let (found, listing) = list_response(&reg, u1);
    assert!(found);
    assert_eq!(listing.files, Some(vec!["x.bin".to_string()]));

    let from = plan_download(&reg, u1, &"x.bin".to_string()).unwrap();
    assert_eq!(from, target);

    assert!(matches!(
        plan_download(&reg, u1, &"y.bin".to_string()),
        Err(DownloadError::FileNotRecorded)
    ));

    let unknown = Identity { hi: u1.hi ^ 1, lo: u1.lo };
    let (found, resp) = list_response(&reg, unknown);
    assert!(!found);
    assert_eq!(resp.message, "Sorry, no such ID has been registered yet!");
}
