//! Transfer-engine decisions: where a file's bytes live, which multipart
//! field carries an upload, and when an upload or download may proceed.
//!
//! The byte streams themselves flow at the process edge; everything decided
//! about them — target paths, matching, admission, error classification —
//! is here, with exact contracts.

use crate::identity::{identity_chars, lemma_identity_chars_injective, Identity};
use crate::registry::FileCoordinator;
use vstd::prelude::*;

verus! {

/// Why an upload was refused.
#[derive(Clone, Debug)]
pub enum UploadError {
    /// The identity was never registered.
    UnknownIdentity,
    /// The multipart stream ended without a field matching the declared name.
    NoMatchingField,
    /// Writing the bytes failed; carries the cause and the target path's text.
    WriteFailed { cause: String, path_text: String },
}

/// Why a download was refused.
#[derive(Clone, Debug)]
pub enum DownloadError {
    /// The identity was never registered.
    UnknownIdentity,
    /// The filename is not recorded for this identity.
    FileNotRecorded,
    /// The file is recorded but storage disagrees; carries the cause.
    StateCorrupted { cause: String },
}

/// The path under which an identity stores a file:
/// `<storage_prefix>/<identity>/<filename>`.
pub open spec fn path_for(prefix: Seq<char>, id: Identity, filename: Seq<char>) -> Seq<char> {
    prefix + seq!['/'] + identity_chars(id) + seq!['/'] + filename
}

/// Builds the storage path for `filename` under `id`.
pub fn storage_path(prefix: &String, id: Identity, filename: &String) -> (r: String)
    ensures
        r@ == path_for(prefix@, id, filename@),
{
    let mut out = prefix.clone();
    out.append("/");
    let idtext = id.to_text();
    out.append(idtext.as_str());
    out.append("/");
    out.append(filename.as_str());
    proof {
        reveal_strlit("/");
    }
    assert(out@ =~= path_for(prefix@, id, filename@));
    out
}

/// Distinct identities never share a storage path, whatever the filenames.
pub proof fn lemma_paths_disjoint(
    prefix: Seq<char>,
    id1: Identity,
    f1: Seq<char>,
    id2: Identity,
    f2: Seq<char>,
)
    requires
        id1 != id2,
    ensures
        path_for(prefix, id1, f1) != path_for(prefix, id2, f2),
{
    let p1 = path_for(prefix, id1, f1);
    let p2 = path_for(prefix, id2, f2);
    if p1 == p2 {
        let u1 = identity_chars(id1);
        let u2 = identity_chars(id2);
        if u1 == u2 {
            lemma_identity_chars_injective(id1, id2);
        } else {
            assert(u1.len() == 36 && u2.len() == 36);
            let j = choose|j: int| 0 <= j < 36 && u1[j] != u2[j];
            assert(exists|j: int| 0 <= j < 36 && u1[j] != u2[j]) by {
                if forall|j: int| 0 <= j < 36 ==> u1[j] == u2[j] {
                    assert(u1 =~= u2);
                }
            }
            let off = prefix.len() + 1;
            assert(p1[off + j] == u1[j]);
            assert(p2[off + j] == u2[j]);
        }
    }
}

/// Whether a multipart field is the one an upload request names: the field
/// must be called "filename" and its embedded filename must equal the
/// declared one exactly.
pub fn field_matches(field_name: &String, field_filename: &String, declared: &String) -> (r: bool)
    ensures
        r == (field_name@ == "filename"@ && field_filename@ == declared@),
{
    let sentinel = "filename".to_owned();
    field_name.eq(&sentinel) && field_filename.eq(declared)
}

/// Admission for an upload: the target path if `id` is registered, and
/// `UnknownIdentity` exactly otherwise.
pub fn upload_target(reg: &FileCoordinator, id: Identity, filename: &String) -> (r: Result<
    String,
    UploadError,
>)
    requires
        reg.wf(),
    ensures
        r is Ok <==> reg.map_view().contains_key(id),
        r matches Ok(p) ==> p@ == path_for(reg.storage_prefix@, id, filename@),
        r is Err ==> r == Result::<String, UploadError>::Err(UploadError::UnknownIdentity),
{
    if reg.is_registered(id) {
        Ok(storage_path(&reg.storage_prefix, id, filename))
    } else {
        Err(UploadError::UnknownIdentity)
    }
}

/// Admission for a download: the source path if `id` is registered and
/// `filename` is recorded for it; `UnknownIdentity` exactly when `id` is
/// unknown; `FileNotRecorded` exactly when `id` is known but the name is not.
pub fn plan_download(reg: &FileCoordinator, id: Identity, filename: &String) -> (r: Result<
    String,
    DownloadError,
>)
    requires
        reg.wf(),
    ensures
        r is Ok <==> reg.map_view().contains_key(id) && reg.map_view()[id].contains(filename@),
        r matches Ok(p) ==> p@ == path_for(reg.storage_prefix@, id, filename@),
        r == Result::<String, DownloadError>::Err(DownloadError::UnknownIdentity) <==> !reg
            .map_view().contains_key(id),
        r == Result::<String, DownloadError>::Err(DownloadError::FileNotRecorded) <==> reg
            .map_view().contains_key(id) && !reg.map_view()[id].contains(filename@),
{
    if !reg.is_registered(id) {
        return Err(DownloadError::UnknownIdentity);
    }
    match reg.lookup(id, filename) {
        Some(fname) => Ok(storage_path(&reg.storage_prefix, id, &fname)),
        None => Err(DownloadError::FileNotRecorded),
    }
}

} // verus!
