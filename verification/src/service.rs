//! The messages of the API.

use crate::entry::Children;
use vstd::prelude::*;

verus! {

/// The kind of failure that a call is refused with.
#[derive(Debug, Clone, Copy, PartialEq, Eq, Structural)]
pub enum Code {
    Unknown,
    Unauthenticated,
}

/// Why a call is refused.
#[derive(Debug, Clone, PartialEq, Eq)]
pub struct Status {
    pub code: Code,
    pub message: String,
}

/// The status has this code and this message.
pub open spec fn status_is(status: Status, code: Code, message: Seq<char>) -> bool {
    status.code == code && status.message@ == message
}

/// An entry as a client uploads it.
#[derive(Debug, Clone, PartialEq, Eq)]
pub struct ApiEntry {
    /// The name, which the uploader signs.
    pub name: String,
    /// The entry as the client encoded it.
    pub encoded: Vec<u8>,
}

/// What comes first in an upload.
#[derive(Debug, Clone, PartialEq, Eq)]
pub struct PutRequestMetadata {
    pub signature: String,
    pub entry: Option<ApiEntry>,
}

/// A file of an upload.
#[derive(Debug, Clone, PartialEq, Eq)]
pub struct UploadFile {
    /// The content identifier that the client claims.
    pub cid: String,
    pub content: Vec<u8>,
}

/// One message of an upload.
#[derive(Debug, Clone, PartialEq, Eq)]
pub enum UploadRequest {
    Metadata(PutRequestMetadata),
    File(UploadFile),
}

/// One item of the stream of an upload.
#[derive(Debug, Clone, PartialEq, Eq)]
pub struct PutRequest {
    pub upload_request: Option<UploadRequest>,
}

/// The answer to an upload.
#[derive(Debug, Clone, PartialEq, Eq)]
pub struct PutResponse {
    /// The signature that the upload came with.
    pub key: String,
    pub success: bool,
    pub error: Option<String>,
}

/// What a [`PutResponse`] says.
pub struct PutResponseView {
    pub key: Seq<char>,
    pub success: bool,
    pub error: Option<Seq<char>>,
}

impl View for PutResponse {
    type V = PutResponseView;

    open spec fn view(&self) -> PutResponseView {
        PutResponseView {
            key: self.key@,
            success: self.success,
            error: match self.error {
                Some(error) => Some(error@),
                None => None,
            },
        }
    }
}

/// The answer to an upload with the given signature: a success exactly where there is no error.
pub open spec fn put_reply(key: Seq<char>, error: Option<Seq<char>>) -> PutResponseView {
    PutResponseView { key, success: error is None, error }
}

/// Answers an upload.
pub fn put_response(error: Option<String>, key: String) -> (response: PutResponse)
    ensures
        response@ == put_reply(
            key@,
            match error {
                Some(error) => Some(error@),
                None => None,
            },
        ),
{
    match error {
        Some(error) => PutResponse { key, success: false, error: Some(error) },
        None => PutResponse { key, success: true, error: None },
    }
}

/// Asks for the items of an entry, or for its files.
#[derive(Debug, Clone, PartialEq, Eq)]
pub struct GetRequest {
    pub location: String,
    pub sig: String,
    /// Whether the files are asked for.
    pub download: bool,
}

/// What comes first in an answer.
#[derive(Debug, Clone, PartialEq, Eq)]
pub struct GetResponseMetadata {
    pub entry: Option<ApiEntry>,
    pub children: Vec<Children>,
    pub success: bool,
    pub error: Option<String>,
}

/// A piece of a file.
#[derive(Debug, Clone, PartialEq, Eq)]
pub struct DownloadFile {
    pub content: Vec<u8>,
    pub cid: String,
    pub name: String,
}

/// One message of an answer.
#[derive(Debug, Clone, PartialEq, Eq)]
pub enum DownloadResponse {
    Metadata(GetResponseMetadata),
    File(DownloadFile),
}

/// One item of the stream of an answer.
#[derive(Debug, Clone, PartialEq, Eq)]
pub struct GetResponse {
    pub download_response: Option<DownloadResponse>,
}

/// What a response says is what its fields hold.
pub proof fn law_response_is_its_fields(response: PutResponse)
    ensures
        response@.key == response.key@,
        response@.success == response.success,
        response@.error is Some <==> response.error is Some,
        response.error matches Some(error) ==> response@.error == Some(error@),
{
}

/// An upload is answered with its own signature and with the error that there was, and is a success
/// exactly where there was none.
pub proof fn law_success_is_no_error(key: Seq<char>, error: Option<Seq<char>>)
    ensures
        put_reply(key, error).key == key,
        put_reply(key, error).error == error,
        put_reply(key, error).success <==> error is None,
{
}

/// A status is told by its code and its message, both of them.
pub proof fn law_status_is_code_and_message(status: Status, code: Code, message: Seq<char>)
    ensures
        status_is(status, code, message) <==> status.code == code && status.message@ == message,
{
}

} // verus!
