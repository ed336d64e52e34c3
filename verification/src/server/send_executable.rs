//! The replies to a download request for one executable.
use vstd::prelude::*;
use vstd::string::*;

use crate::state::{get_executable, lookup, AppState};

verus! {

/// The path parameter of `GET /executable/{name}`.
pub struct PathParams {
    pub name: String,
}

/// The message of both failed replies.
pub const NOT_SENT_MESSAGE: &'static str = "Não foi possivel enviar o excutavel";

/// The media type of a downloaded executable.
pub const OCTET_STREAM: &'static str = "application/octet-stream";

/// HTTP 200.
pub const STATUS_OK: u16 = 200u16;

/// HTTP 404, sent when the executable's file cannot be read.
pub const STATUS_NOT_FOUND: u16 = 404u16;

/// HTTP 500, sent when no executable has the requested name.
pub const STATUS_INTERNAL_SERVER_ERROR: u16 = 500u16;

/// A failed reply: a status and a message.
pub struct ErrorReply {
    pub status: u16,
    pub message: String,
}

/// A successful reply carrying the executable's bytes as an attachment.
pub struct FileReply {
    pub status: u16,
    pub content_type: String,
    pub content_disposition: String,
    pub body: Vec<u8>,
}

/// The `Content-Disposition` value naming the attachment `name`.
pub open spec fn attachment_disposition(name: Seq<char>) -> Seq<char> {
    "attachment; filename=\""@ + name + "\""@
}

/// The failed reply with this status.
fn error_reply(status: u16) -> (r: ErrorReply)
    ensures
        r.status == status,
        r.message@ == NOT_SENT_MESSAGE@,
{
    ErrorReply { status, message: String::from_str(NOT_SENT_MESSAGE) }
}

/// The file to read for a download: the path of the first executable with the
/// requested name, or the 500 reply when there is none.
pub fn locate_executable(state: &AppState, params: &PathParams) -> (r: Result<String, ErrorReply>)
    ensures
        match lookup(state@, params.name@) {
            Some(e) => r matches Ok(path) && path@ == e.path,
            None => r matches Err(reply) && reply.status == STATUS_INTERNAL_SERVER_ERROR
                && reply.message@ == NOT_SENT_MESSAGE@,
        },
{
    match get_executable(&state.crates, params.name.as_str()) {
        Some(exe) => Ok(exe.path),
        None => Err(error_reply(STATUS_INTERNAL_SERVER_ERROR)),
    }
}

/// The reply once the file was read (`Some` of its bytes) or could not be (`None`, 404).
pub fn file_reply(params: &PathParams, content: Option<Vec<u8>>) -> (r: Result<FileReply, ErrorReply>)
    ensures
        match content {
            Some(bytes) => r matches Ok(reply) && reply.status == STATUS_OK && reply.content_type@
                == OCTET_STREAM@ && reply.content_disposition@ == attachment_disposition(params.name@)
                && reply.body@ == bytes@,
            None => r matches Err(reply) && reply.status == STATUS_NOT_FOUND && reply.message@
                == NOT_SENT_MESSAGE@,
        },
{
    match content {
        Some(bytes) => {
            let mut disposition = String::from_str("attachment; filename=\"");
            disposition.append(params.name.as_str());
            disposition.append("\"");
            Ok(
                FileReply {
                    status: STATUS_OK,
                    content_type: String::from_str(OCTET_STREAM),
                    content_disposition: disposition,
                    body: bytes,
                },
            )
        },
        None => Err(error_reply(STATUS_NOT_FOUND)),
    }
}

} // verus!
