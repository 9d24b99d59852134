//! Reading entries.
//!
//! A caller signs the location that is asked for. Where the signature holds, the DHT is asked for
//! the entry, and the answer is a list of the items of the entry, or its files.

use crate::dht::{DhtGetRecordRequest, DhtRequestType, DhtResponseType};
use crate::entry::{Children, Entry};
use crate::keys::{check_signature, PublicKey, SignatureCheck};
use crate::service::{Code, DownloadResponse, GetRequest, GetResponse, GetResponseMetadata, Status};
use vstd::prelude::*;
use vstd::string::*;
use vstd::utf8::*;

verus! {

/// How the signature of a request compares with the location that is asked for.
pub open spec fn request_check(public_key: Seq<char>, request: GetRequest) -> SignatureCheck {
    crate::keys::signature_check(encode_utf8(request.location@), request.sig@, public_key)
}

/// How a request is answered at first.
#[derive(Debug, Clone, PartialEq, Eq)]
pub enum GetStep {
    /// With this response alone.
    Deny(GetResponse),
    /// Only once the DHT was asked this.
    Ask(DhtRequestType),
}

/// The response says that the request failed with `error`, and nothing else.
pub open spec fn is_failure(response: GetResponse, error: Seq<char>) -> bool {
    &&& response.download_response matches Some(DownloadResponse::Metadata(metadata))
    &&& metadata.entry is None
    &&& metadata.children@.len() == 0
    &&& !metadata.success
    &&& metadata.error matches Some(e)
    &&& e@ == error
}

/// The response lists `children`, and nothing else.
pub open spec fn is_listing(response: GetResponse, children: Vec<Children>) -> bool {
    &&& response.download_response matches Some(DownloadResponse::Metadata(metadata))
    &&& metadata.entry is None
    &&& metadata.children == children
    &&& metadata.success
    &&& metadata.error is None
}

/// The step asks the DHT for the location of the request, in the name of the caller.
pub open spec fn asks_for(step: GetStep, public_key: Seq<char>, request: GetRequest) -> bool {
    &&& step matches GetStep::Ask(DhtRequestType::GetRecord(get))
    &&& get.signature@ == request.location@
    &&& get.name@ == request.sig@
    &&& get.public_key@ == public_key
}

/// A response that says why a request failed.
pub fn failure(error: String) -> (response: GetResponse)
    ensures
        is_failure(response, error@),
{
    GetResponse {
        download_response: Some(
            DownloadResponse::Metadata(
                GetResponseMetadata {
                    entry: None,
                    children: Vec::new(),
                    success: false,
                    error: Some(error),
                },
            ),
        ),
    }
}

/// A response that lists the items of an entry.
pub fn listing(children: Vec<Children>) -> (response: GetResponse)
    ensures
        is_listing(response, children),
{
    GetResponse {
        download_response: Some(
            DownloadResponse::Metadata(
                GetResponseMetadata { entry: None, children, success: true, error: None },
            ),
        ),
    }
}

/// Answers a request whose signature compares as `check` says.
pub fn judge_get(public_key: PublicKey, request: &GetRequest, check: SignatureCheck) -> (step:
    GetStep)
    requires
        check != SignatureCheck::Malformed,
    ensures
        check == SignatureCheck::Mismatch ==> (step matches GetStep::Deny(response) && is_failure(
            response,
            "Invalid signature"@,
        )),
        check == SignatureCheck::Valid ==> asks_for(step, public_key@, *request),
{
    match check {
        SignatureCheck::Valid => GetStep::Ask(
            DhtRequestType::GetRecord(
                DhtGetRecordRequest {
                    signature: request.location.clone(),
                    public_key,
                    name: request.sig.clone(),
                },
            ),
        ),
        _ => GetStep::Deny(failure("Invalid signature".to_owned())),
    }
}

/// Answers a request. There is no answer exactly where its signature cannot be read.
pub fn begin_get(public_key: PublicKey, request: &GetRequest) -> (step: Option<GetStep>)
    ensures
        match (request_check(public_key@, *request), step) {
            (SignatureCheck::Malformed, None) => true,
            (SignatureCheck::Mismatch, Some(GetStep::Deny(response))) => is_failure(
                response,
                "Invalid signature"@,
            ),
            (SignatureCheck::Valid, Some(step)) => asks_for(step, public_key@, *request),
            _ => false,
        },
        step matches Some(GetStep::Ask(_)) <==> (crate::keys::signature_text(
            request.sig@,
        ) matches Some(signature) && crate::keys::ecdsa_verifies(
            crate::keys::message_digest(encode_utf8(request.location@)),
            signature,
            public_key@,
        )),
        step is None <==> crate::keys::signature_text(request.sig@) is None,
{
    let check: SignatureCheck = check_signature(
        request.location.as_str().as_bytes(),
        request.sig.as_str(),
        &public_key,
    );
    match check {
        SignatureCheck::Malformed => None,
        _ => Some(judge_get(public_key, request, check)),
    }
}

/// How a request is answered in the end.
#[derive(Debug, Clone, PartialEq, Eq)]
pub enum GetOutcome {
    /// The call is refused.
    Refuse(Status),
    /// The files at this place inside the entry are sent.
    Download { location: Option<String>, entry: Entry },
    /// The items of the entry at this place are listed; without a place, those of the entry
    /// itself.
    List { entry: Entry, location: Option<String> },
    /// Nothing is sent, and this is reported.
    Report(String),
}

/// What the DHT found is complete: unless there is an error, there is an entry, and a place
/// inside it where the items are to be listed.
pub open spec fn is_complete(response: Result<DhtResponseType, String>, download: bool) -> bool {
    response matches Ok(DhtResponseType::GetRecord(get)) ==> {
        ||| get.error is Some
        ||| get.entry is Some && (download || get.location is Some)
    }
}

/// Whether what the DHT found is complete.
pub fn can_answer(response: &Result<DhtResponseType, String>, download: bool) -> (b: bool)
    ensures
        b == is_complete(*response, download),
{
    match response {
        Ok(DhtResponseType::GetRecord(get)) => get.error.is_some() || (get.entry.is_some() && (
        download || get.location.is_some())),
        _ => true,
    }
}

/// Answers a request with what came back from the DHT: its response, or why there is none.
pub fn on_dht_response(response: Result<DhtResponseType, String>, download: bool) -> (outcome:
    GetOutcome)
    requires
        is_complete(response, download),
    ensures
        match response {
            Err(error) => outcome == GetOutcome::Report(error),
            Ok(DhtResponseType::PutRecord(_)) => outcome matches GetOutcome::Report(report)
                && report@ == "unknown error"@,
            Ok(DhtResponseType::GetRecord(get)) => match get.error {
                Some(message) => outcome matches GetOutcome::Refuse(status)
                    && crate::service::status_is(status, Code::Unauthenticated, message@),
                None => if download {
                    outcome == (GetOutcome::Download {
                        location: get.location,
                        entry: get.entry.unwrap(),
                    })
                } else {
                    &&& outcome matches GetOutcome::List { entry, location }
                    &&& entry == get.entry.unwrap()
                    &&& location == if get.location.unwrap()@ == "/"@ {
                        None
                    } else {
                        get.location
                    }
                },
            },
        },
{
    match response {
        Err(error) => GetOutcome::Report(error),
        Ok(DhtResponseType::PutRecord(_)) => GetOutcome::Report("unknown error".to_owned()),
        Ok(DhtResponseType::GetRecord(get)) => match get.error {
            Some(message) => GetOutcome::Refuse(Status { code: Code::Unauthenticated, message }),
            None => {
                let entry: Entry = get.entry.unwrap();
                if download {
                    GetOutcome::Download { location: get.location, entry }
                } else {
                    let location: String = get.location.unwrap();
                    let root = "/".to_owned();
                    if location == root {
                        GetOutcome::List { entry, location: None }
                    } else {
                        GetOutcome::List { entry, location: Some(location) }
                    }
                }
            },
        },
    }
}

/// A request holds exactly where its signature can be read and verifies over the location itself,
/// and is malformed exactly where it cannot be read.
pub proof fn law_request_signs_its_location(public_key: Seq<char>, request: GetRequest)
    ensures
        request_check(public_key, request) == SignatureCheck::Valid <==> (
        crate::keys::signature_text(request.sig@) matches Some(signature)
            && crate::keys::ecdsa_verifies(
            crate::keys::message_digest(encode_utf8(request.location@)),
            signature,
            public_key,
        )),
        request_check(public_key, request) == SignatureCheck::Malformed
            <==> crate::keys::signature_text(request.sig@) is None,
{
}

/// Whether files or items are asked for has no part in whether a request holds.
pub proof fn law_download_and_listing_are_signed_alike(
    public_key: Seq<char>,
    request: GetRequest,
    other: GetRequest,
)
    requires
        request.location@ == other.location@,
        request.sig@ == other.sig@,
    ensures
        request_check(public_key, request) == request_check(public_key, other),
{
}

/// The DHT is asked for the location of the request, with its signature, in the name of the
/// caller.
pub proof fn law_what_the_dht_is_asked(step: GetStep, public_key: Seq<char>, request: GetRequest)
    ensures
        asks_for(step, public_key, request) <==> {
            &&& step matches GetStep::Ask(DhtRequestType::GetRecord(get))
            &&& get.signature@ == request.location@
            &&& get.name@ == request.sig@
            &&& get.public_key@ == public_key
        },
{
}

/// A failure is told by a message that lists nothing, is no success and holds the error; a listing
/// by one that lists the items, is a success and holds no error.
pub proof fn law_failures_and_listings(
    response: GetResponse,
    error: Seq<char>,
    children: Vec<Children>,
)
    ensures
        is_failure(response, error) ==> {
            &&& response.download_response matches Some(DownloadResponse::Metadata(metadata))
            &&& metadata.entry is None
            &&& metadata.children@ == Seq::<Children>::empty()
            &&& !metadata.success
            &&& metadata.error matches Some(e)
            &&& e@ == error
        },
        is_listing(response, children) ==> {
            &&& response.download_response matches Some(DownloadResponse::Metadata(metadata))
            &&& metadata.entry is None
            &&& metadata.children@ == children@
            &&& metadata.success
            &&& metadata.error is None
        },
{
}

/// What the DHT found is complete unless it found a record without an error that lacks the entry,
/// or lacks the place inside it where items are to be listed.
pub proof fn law_what_is_complete(response: Result<DhtResponseType, String>, download: bool)
    ensures
        !is_complete(response, download) <==> {
            &&& response matches Ok(DhtResponseType::GetRecord(get))
            &&& get.error is None
            &&& get.entry is None || (!download && get.location is None)
        },
{
}

} // verus!
