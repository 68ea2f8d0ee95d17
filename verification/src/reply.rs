//! What the gateway answers to a request that streams nothing: a status
//! code, a message for people, and the records asked for.

use crate::download::{unsatisfiable_range, unsatisfiable_spec};
use crate::entry::EntryInfo;
use crate::error::GatewayError;
use crate::utils::{format_bytes, format_bytes_spec};
use vstd::prelude::*;
use vstd::string::StringExecFns;

verus! {

/// The answer to a request.
#[derive(Clone, Debug, PartialEq, Eq)]
pub struct ApiResponse {
    /// The HTTP status.
    pub code: i32,
    /// What happened, for people.
    pub message: String,
    /// The records that were asked for, if any.
    pub data: Option<Vec<EntryInfo>>,
}

impl ApiResponse {
    /// Whether the answer carries no records, and the given status and
    /// message.
    pub open spec fn is_plain(self, code: i32, message: Seq<char>) -> bool {
        self.code == code && self.message@ == message && self.data is None
    }
}

/// Why a download could not start.
#[derive(Clone, Debug, PartialEq, Eq)]
pub enum DownloadFailure {
    /// The path did not resolve.
    Unresolved,
    /// The file could not be opened; the text says why.
    Open(String),
    /// The file's size could not be read.
    Metadata,
    /// The range cannot be served from the file, which has this many bytes.
    Range(u64),
    /// The file could not be positioned at the first byte.
    Seek,
    /// The entry is no file.
    NotAFile,
}

/// Why a download could not start, from the error that refused it, for a
/// file of `size` bytes.
pub open spec fn failure_spec(error: GatewayError, size: u64) -> DownloadFailure {
    match error {
        GatewayError::NotFound => DownloadFailure::Unresolved,
        GatewayError::Forbidden => DownloadFailure::Unresolved,
        GatewayError::BadRequest => DownloadFailure::NotAFile,
        GatewayError::RangeNotSatisfiable => DownloadFailure::Range(size),
        GatewayError::Conflict => DownloadFailure::Metadata,
        GatewayError::InternalError => DownloadFailure::Metadata,
    }
}

/// Why a download could not start, from the error that refused it, for a
/// file of `size` bytes. A path that was refused counts as one that did not
/// resolve.
pub fn download_failure_of(error: GatewayError, size: u64) -> (failure: DownloadFailure)
    ensures
        failure == failure_spec(error, size),
{
    match error {
        GatewayError::NotFound => DownloadFailure::Unresolved,
        GatewayError::Forbidden => DownloadFailure::Unresolved,
        GatewayError::BadRequest => DownloadFailure::NotAFile,
        GatewayError::RangeNotSatisfiable => DownloadFailure::Range(size),
        GatewayError::Conflict => DownloadFailure::Metadata,
        GatewayError::InternalError => DownloadFailure::Metadata,
    }
}

fn plain(code: i32, message: String) -> (reply: ApiResponse)
    ensures
        reply.is_plain(code, message@),
{
    ApiResponse { code, message, data: None }
}

fn text2(first: &str, second: &str) -> (text: String)
    ensures
        text@ == first@ + second@,
{
    let mut text = String::from_str(first);
    text.append(second);
    text
}

fn text4(first: &str, second: &str, third: &str, fourth: &str) -> (text: String)
    ensures
        text@ == first@ + second@ + third@ + fourth@,
{
    let mut text = String::from_str(first);
    text.append(second);
    text.append(third);
    text.append(fourth);
    text
}

/// The answer for an entry that was not found, or not admitted: what the
/// client asked for, and nothing of the paths behind it.
pub fn not_found_reply(rel: &str) -> (reply: ApiResponse)
    ensures
        reply.is_plain(404, rel@ + " not found"@),
{
    plain(404, text2(rel, " not found"))
}

/// The answer to a listing: the records under status 200, or the answer
/// for an entry that was not found where there are none.
pub fn list_entry_info_reply(rel: &str, records: Option<Vec<EntryInfo>>) -> (reply: ApiResponse)
    ensures
        records is Some ==> reply.code == 200 && reply.message@ == "OK"@ && reply.data == records,
        records is None ==> reply.is_plain(404, rel@ + " not found"@),
{
    match records {
        Some(records) => ApiResponse {
            code: 200,
            message: String::from_str("OK"),
            data: Some(records),
        },
        None => not_found_reply(rel),
    }
}

/// The answer to a removal. One that failed, for whatever reason, is
/// answered as an entry that was not found.
pub fn delete_entry_reply(rel: &str, removed: bool) -> (reply: ApiResponse)
    ensures
        removed ==> reply.is_plain(200, "succcess remove "@ + rel@),
        !removed ==> reply.is_plain(404, rel@ + " not found"@),
{
    if removed {
        plain(200, text2("succcess remove ", rel))
    } else {
        not_found_reply(rel)
    }
}

/// The answer to a renaming: status 200 where it was done, the error's
/// status where it was not.
pub fn rename_entry_reply(rel: &str, newname: &str, outcome: Result<(), GatewayError>) -> (reply:
    ApiResponse)
    ensures
        outcome is Ok ==> reply.is_plain(200, "success "@ + rel@ + " to "@ + newname@),
        outcome matches Err(error) ==> reply.is_plain(
            error.status_spec() as i32,
            "error "@ + rel@ + " to "@ + newname@ + " "@,
        ),
{
    match outcome {
        Ok(_) => plain(200, text4("success ", rel, " to ", newname)),
        Err(error) => {
            let mut message = text4("error ", rel, " to ", newname);
            message.append(" ");
            plain(error.status() as i32, message)
        },
    }
}

/// The answer to the creation of a directory: status 200 where it stands,
/// the error's status where it does not.
pub fn create_entry_reply(rel: &str, outcome: Result<(), GatewayError>) -> (reply: ApiResponse)
    ensures
        outcome is Ok ==> reply.is_plain(200, "success create "@ + rel@),
        outcome matches Err(error) ==> reply.is_plain(
            error.status_spec() as i32,
            "error create "@ + rel@ + " "@,
        ),
{
    match outcome {
        Ok(_) => plain(200, text2("success create ", rel)),
        Err(error) => {
            let mut message = text2("error create ", rel);
            message.append(" ");
            plain(error.status() as i32, message)
        },
    }
}

/// The answer to an upload into the directory `rel` that brought `total`
/// bytes.
pub fn upload_entry_reply(rel: &str, total: u64) -> (reply: ApiResponse)
    ensures
        reply.is_plain(
            200,
            "success upload to "@ + rel@ + " and total "@ + format_bytes_spec(total),
        ),
{
    plain(200, text4("success upload to ", rel, " and total ", format_bytes(total).as_str()))
}

/// The status and message for a download that could not start.
pub open spec fn download_failure_spec(rel: Seq<char>, failure: DownloadFailure) -> (
    i32,
    Seq<char>,
) {
    match failure {
        DownloadFailure::Unresolved => (404, rel + " not found"@),
        DownloadFailure::Open(why) => (404, rel + ",err:"@ + why@),
        DownloadFailure::Metadata => (500, rel + " not get meta"@),
        DownloadFailure::Range(size) => (416, unsatisfiable_spec(size)),
        DownloadFailure::Seek => (500, rel + " seek error"@),
        DownloadFailure::NotAFile => (400, rel + " is not a file"@),
    }
}

/// The answer to a download that could not start. A range that cannot be
/// served is answered with status 416 and `bytes */` before the file's size.
pub fn download_entry_failure(rel: &str, failure: &DownloadFailure) -> (reply: ApiResponse)
    ensures
        reply.is_plain(
            download_failure_spec(rel@, *failure).0,
            download_failure_spec(rel@, *failure).1,
        ),
{
    match failure {
        DownloadFailure::Unresolved => not_found_reply(rel),
        DownloadFailure::Open(why) => {
            let mut message = text2(rel, ",err:");
            message.append(why.as_str());
            plain(404, message)
        },
        DownloadFailure::Metadata => plain(500, text2(rel, " not get meta")),
        DownloadFailure::Range(size) => plain(416, unsatisfiable_range(*size)),
        DownloadFailure::Seek => plain(500, text2(rel, " seek error")),
        DownloadFailure::NotAFile => plain(400, text2(rel, " is not a file")),
    }
}

} // verus!
