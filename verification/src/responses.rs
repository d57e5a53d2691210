//! The replies the operations produce, with their exact texts.

use crate::identity::{identity_chars, Identity};
use crate::registry::FileCoordinator;
use crate::transfer::{DownloadError, UploadError};
use vstd::prelude::*;

verus! {

/// The reply to a listing request: a message, and the file list when the
/// identity is known.
pub struct ListFilesResponse {
    pub message: String,
    pub files: Option<Vec<String>>,
}

/// The reply to a registration: the new identity's text and a confirmation.
pub struct RegisteredResponse {
    pub id: String,
    pub message: String,
}

/// The reply to a shutdown request.
pub struct ExitResponse {
    pub response: String,
}

/// What `ListFilesResponse` renders to: a complaint for an unknown
/// identity; otherwise the files, one per line, or a placeholder when
/// there are none.
pub open spec fn spec_render_listing(files: Option<Seq<Seq<char>>>) -> Seq<char> {
    match files {
        Option::None => "WHOOPS: Server doesn't know this ID!"@,
        Option::Some(v) => if v.len() == 0 {
            "FILES:\n"@ + "- <EMPTY>\n"@
        } else {
            spec_render_names("FILES:\n"@, v)
        },
    }
}

/// Renders `- `name`;` for each name, appended to `acc`.
pub open spec fn spec_render_names(acc: Seq<char>, names: Seq<Seq<char>>) -> Seq<char>
    decreases names.len(),
{
    if names.len() == 0 {
        acc
    } else {
        spec_render_names(acc + "- `"@ + names.first() + "`;"@, names.drop_first())
    }
}

impl ListFilesResponse {
    /// The files as a sequence of character sequences.
    pub open spec fn files_view(self) -> Option<Seq<Seq<char>>> {
        match self.files {
            Option::None => Option::None,
            Option::Some(v) => Option::Some(v.deep_view()),
        }
    }

    /// Renders the reply as the client shows it.
    pub fn display_string(&self) -> (r: String)
        ensures
            r@ == spec_render_listing(self.files_view()),
    {
        match &self.files {
            None => "WHOOPS: Server doesn't know this ID!".to_owned(),
            Some(vec) => {
                let mut out = "FILES:\n".to_owned();
                if vec.len() == 0 {
                    out.append("- <EMPTY>\n");
                    return out;
                }
                let ghost names = vec.deep_view();
                proof {
                    assert(names.skip(0) =~= names);
                }
                let mut i: usize = 0;
                while i < vec.len()
                    invariant
                        i <= vec@.len(),
                        names == vec.deep_view(),
                        names.len() == vec@.len(),
                        spec_render_names(out@, names.skip(i as int)) == spec_render_names(
                            "FILES:\n"@,
                            names,
                        ),
                    decreases vec@.len() - i,
                {
                    let ghost prev = out@;
                    out.append("- `");
                    out.append(vec[i].as_str());
                    out.append("`;");
                    proof {
                        assert(names.skip(i as int).first() == names[i as int]);
                        assert(names.skip(i as int).drop_first() =~= names.skip(i as int + 1));
                        assert(names[i as int] == vec@[i as int]@);
                        assert(out@ == prev + "- `"@ + names.skip(i as int).first() + "`;"@);
                        assert(spec_render_names(prev, names.skip(i as int)) == spec_render_names(
                            out@,
                            names.skip(i as int + 1),
                        ));
                    }
                    i = i + 1;
                }
                proof {
                    assert(names.skip(i as int) =~= Seq::<Seq<char>>::empty());
                }
                out
            },
        }
    }
}

/// The reply to a registration of `id`.
pub fn register_response(id: Identity) -> (r: RegisteredResponse)
    ensures
        r.id@ == identity_chars(id),
        r.message@
            == "Your new file sharing ID has been registered! Do NOT lose this ID, it is your key to sharing files via this app!"@,
{
    RegisteredResponse {
        id: id.to_text(),
        message:
            "Your new file sharing ID has been registered! Do NOT lose this ID, it is your key to sharing files via this app!".to_owned(),
    }
}

/// The reply to a listing request, and whether the identity was found.
pub fn list_response(reg: &FileCoordinator, id: Identity) -> (r: (bool, ListFilesResponse))
    requires
        reg.wf(),
    ensures
        r.0 == reg.map_view().contains_key(id),
        !r.0 ==> r.1.message@ == "Sorry, no such ID has been registered yet!"@ && r.1.files
            is None,
        r.0 ==> r.1.message@ == "Found files for id "@ + identity_chars(id) + "!"@
            && (r.1.files matches Some(v) && v.deep_view() == reg.map_view()[id]),
{
    match reg.list_files(id) {
        Err(_) => (
            false,
            ListFilesResponse {
                message: "Sorry, no such ID has been registered yet!".to_owned(),
                files: None,
            },
        ),
        Ok(v) => {
            let mut message = "Found files for id ".to_owned();
            message.append(id.to_text().as_str());
            message.append("!");
            proof {
                reveal_strlit("!");
            }
            assert(message@ =~= "Found files for id "@ + identity_chars(id) + "!"@);
            (true, ListFilesResponse { message, files: Some(v) })
        },
    }
}

/// The reply to an upload attempt, and whether it reports success.
pub fn upload_reply(outcome: &Result<(), UploadError>) -> (r: (bool, String))
    ensures
        r.0 == outcome is Ok,
        outcome is Ok ==> r.1@ == "File uploaded!"@,
        outcome matches Err(UploadError::UnknownIdentity) ==> r.1@
            == "ERROR: No such ID has been registered, can't upload any files!"@,
        outcome matches Err(UploadError::NoMatchingField) ==> r.1@
            == "Received request to upload, but couldn't start receiving data?.."@,
        outcome matches Err(UploadError::WriteFailed { cause, path_text }) ==> r.1@
            == "Couldn't upload chunk for this reason: `"@ + cause@
            + "`, path being written to: "@ + path_text@,
{
    match outcome {
        Ok(()) => (true, "File uploaded!".to_owned()),
        Err(UploadError::UnknownIdentity) => (
            false,
            "ERROR: No such ID has been registered, can't upload any files!".to_owned(),
        ),
        Err(UploadError::NoMatchingField) => (
            false,
            "Received request to upload, but couldn't start receiving data?..".to_owned(),
        ),
        Err(UploadError::WriteFailed { cause, path_text }) => {
            let mut m = "Couldn't upload chunk for this reason: `".to_owned();
            m.append(cause.as_str());
            m.append("`, path being written to: ");
            m.append(path_text.as_str());
            proof {
                reveal_strlit("`, path being written to: ");
            }
            assert(m@ =~= "Couldn't upload chunk for this reason: `"@ + cause@
                + "`, path being written to: "@ + path_text@);
            (false, m)
        },
    }
}

/// The message a refused download reports.
pub fn download_error_message(err: &DownloadError) -> (r: String)
    ensures
        err is UnknownIdentity ==> r@ == "Specified ID does not exist."@,
        err is FileNotRecorded ==> r@ == "File not found within this ID."@,
        err matches DownloadError::StateCorrupted { cause } ==> r@
            == "ERROR: file is present in the server state, but is not physically there. Something went horribly wrong. The server state is corrupted?.. The error returned is: "@
            + cause@,
{
    match err {
        DownloadError::UnknownIdentity => "Specified ID does not exist.".to_owned(),
        DownloadError::FileNotRecorded => "File not found within this ID.".to_owned(),
        DownloadError::StateCorrupted { cause } => {
            let mut m =
                "ERROR: file is present in the server state, but is not physically there. Something went horribly wrong. The server state is corrupted?.. The error returned is: ".to_owned();
            m.append(cause.as_str());
            m
        },
    }
}

/// The value a download reply carries in its content-disposition header.
pub fn content_disposition(filename: &String) -> (r: String)
    ensures
        r@ == "attachment; filename=\""@ + filename@ + "\""@,
{
    let mut m = "attachment; filename=\"".to_owned();
    m.append(filename.as_str());
    m.append("\"");
    proof {
        reveal_strlit("\"");
    }
    assert(m@ =~= "attachment; filename=\""@ + filename@ + "\""@);
    m
}

/// The reply to a shutdown request.
pub fn exit_response() -> (r: ExitResponse)
    ensures
        r.response@ == "Yeah, it wasn't all that fun anyway..."@,
{
    ExitResponse { response: "Yeah, it wasn't all that fun anyway...".to_owned() }
}

} // verus!
