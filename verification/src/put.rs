//! Uploads.
//!
//! An upload is a stream of messages: the metadata of an entry, signed by the uploader, and the
//! files of the entry. A [`PutSession`] decides what to do with each message, and what to answer in
//! the end. Whoever holds the stream does what it says: looks for files, writes them, and asks the
//! DHT.

use crate::cache::path_of;
use crate::dht::{DhtPutRecordRequest, DhtRequestType, DhtResponseType};
use crate::keys::{check_signature, content_id, is_signature, PublicKey, SignatureCheck};
use crate::service::{
    put_response, ApiEntry, Code, PutRequestMetadata, PutResponse, Status, UploadFile,
    UploadRequest,
};
use vstd::prelude::*;
use vstd::string::*;
use vstd::utf8::*;

verus! {

/// What an uploader signs: the key and the name of the entry.
pub open spec fn signed_text(public_key: Seq<char>, name: Seq<char>) -> Seq<char> {
    public_key + "/"@ + name
}

/// How the signature of the metadata compares with the key and the name of the entry.
pub open spec fn metadata_check(public_key: Seq<char>, data: PutRequestMetadata) -> SignatureCheck {
    crate::keys::signature_check(
        encode_utf8(signed_text(public_key, data.entry.unwrap().name@)),
        data.signature@,
        public_key,
    )
}

/// The signature of the metadata can be read, but there is no entry that it could sign.
pub open spec fn lacks_entry(data: PutRequestMetadata) -> bool {
    crate::keys::signature_text(data.signature@) is Some && data.entry is None
}

/// The metadata taken so far, after one more message: metadata is taken where it is signed by the
/// uploader.
pub open spec fn next_metadata(
    public_key: Seq<char>,
    metadata: Option<PutRequestMetadata>,
    upload: UploadRequest,
) -> Option<PutRequestMetadata> {
    match upload {
        UploadRequest::Metadata(data) => if !lacks_entry(data) && metadata_check(public_key, data)
            == SignatureCheck::Valid {
            Some(data)
        } else {
            metadata
        },
        UploadRequest::File(_) => metadata,
    }
}

/// The metadata taken from the messages of an upload.
pub open spec fn metadata_after(
    public_key: Seq<char>,
    uploads: Seq<UploadRequest>,
) -> Option<PutRequestMetadata>
    decreases uploads.len(),
{
    if uploads.len() == 0 {
        None
    } else {
        next_metadata(
            public_key,
            metadata_after(public_key, uploads.drop_last()),
            uploads.last(),
        )
    }
}

/// What is to be done next in an upload.
#[derive(Debug, Clone, PartialEq, Eq)]
pub enum PutStep {
    /// Take the next message.
    Next,
    /// See whether there is a file at `location`; `content` is what it should hold.
    Look { location: String, content: Vec<u8> },
    /// Write the file.
    Write { location: String, content: Vec<u8> },
    /// End the upload with this answer.
    Reply(PutResponse),
    /// End the upload with this status.
    Refuse(Status),
}

/// The step ends the upload with the given error.
pub open spec fn replies_error(step: PutStep, key: Seq<char>, error: Seq<char>) -> bool {
    step matches PutStep::Reply(response) && response@ == crate::service::put_reply(
        key,
        Some(error),
    )
}

/// Metadata, where there is any, has an entry and is signed with the key for the name of that
/// entry.
pub open spec fn is_authentic(
    public_key: Seq<char>,
    metadata: Option<PutRequestMetadata>,
) -> bool {
    metadata matches Some(data) ==> data.entry is Some && metadata_check(public_key, data)
        == SignatureCheck::Valid
}

/// Lets metadata pass whose signature compares as `check` says, or ends the upload.
pub fn judge_metadata(data: PutRequestMetadata, check: SignatureCheck) -> (judged: Result<
    PutRequestMetadata,
    PutResponse,
>)
    ensures
        match (check, judged) {
            (SignatureCheck::Malformed, Err(response)) => response@ == crate::service::put_reply(
                data.signature@,
                Some("Error while parsing signature"@),
            ),
            (SignatureCheck::Mismatch, Err(response)) => response@ == crate::service::put_reply(
                data.signature@,
                Some("Invalid signature"@),
            ),
            (SignatureCheck::Valid, Ok(passed)) => passed == data,
            _ => false,
        },
{
    match check {
        SignatureCheck::Malformed => Err(
            put_response(Some("Error while parsing signature".to_owned()), data.signature),
        ),
        SignatureCheck::Mismatch => Err(
            put_response(Some("Invalid signature".to_owned()), data.signature),
        ),
        SignatureCheck::Valid => Ok(data),
    }
}

/// The step for a file whose content has the identifier `cid`: it is looked for, or the upload
/// ends.
pub open spec fn is_file_step(
    step: PutStep,
    metadata: Option<PutRequestMetadata>,
    file: UploadFile,
    cid: Seq<char>,
) -> bool {
    match metadata {
        None => step matches PutStep::Refuse(status) && crate::service::status_is(
            status,
            Code::Unknown,
            "No metadata received"@,
        ),
        Some(data) => if file.cid@ != cid {
            replies_error(step, data.signature@, "Invalid Cid"@)
        } else {
            step matches PutStep::Look { location, content } && location@
                == crate::cache::cache_path(cid) && content == file.content
        },
    }
}

/// Looks for a file whose content has the identifier `cid`, or ends the upload.
pub fn judge_file(metadata: &Option<PutRequestMetadata>, file: UploadFile, cid: String) -> (step:
    PutStep)
    ensures
        is_file_step(step, *metadata, file, cid@),
{
    match metadata {
        None => PutStep::Refuse(
            Status { code: Code::Unknown, message: "No metadata received".to_owned() },
        ),
        Some(data) => {
            if cid != file.cid {
                PutStep::Reply(
                    put_response(Some("Invalid Cid".to_owned()), data.signature.clone()),
                )
            } else {
                PutStep::Look { location: path_of(cid.as_str()), content: file.content }
            }
        },
    }
}

/// An upload in progress. The metadata that it holds is always authentic.
#[derive(Debug, PartialEq, Eq)]
pub struct PutSession {
    public_key: PublicKey,
    metadata: Option<PutRequestMetadata>,
}

impl PutSession {
    #[verifier::type_invariant]
    spec fn holds_authentic(self) -> bool {
        is_authentic(self.public_key@, self.metadata)
    }

    /// The key of the uploader.
    pub closed spec fn key(&self) -> Seq<char> {
        self.public_key@
    }

    /// The metadata taken so far.
    pub closed spec fn taken(&self) -> Option<PutRequestMetadata> {
        self.metadata
    }

    /// Starts an upload.
    pub fn new(public_key: PublicKey) -> (session: PutSession)
        ensures
            session.key() == public_key@,
            session.taken() is None,
    {
        PutSession { public_key, metadata: None }
    }

    /// The metadata taken so far.
    pub fn metadata(&self) -> (metadata: &Option<PutRequestMetadata>)
        ensures
            *metadata == self.taken(),
            is_authentic(self.key(), *metadata),
    {
        proof {
            use_type_invariant(self);
        }
        &self.metadata
    }

    /// Takes the next message of the upload. Metadata that is taken replaces what was taken
    /// before. There is no step exactly where metadata with a readable signature comes without an
    /// entry.
    pub fn on_upload(&mut self, upload: UploadRequest) -> (step: Option<PutStep>)
        ensures
            final(self).key() == old(self).key(),
            final(self).taken() == next_metadata(old(self).key(), old(self).taken(), upload),
            upload is File ==> final(self).taken() == old(self).taken(),
            final(self).taken() == old(self).taken() || upload == UploadRequest::Metadata(
                final(self).taken().unwrap(),
            ),
            match (upload, step) {
                (UploadRequest::Metadata(data), None) => lacks_entry(data),
                (UploadRequest::Metadata(data), Some(step)) => {
                    &&& !lacks_entry(data)
                    &&& match metadata_check(old(self).key(), data) {
                        SignatureCheck::Malformed => replies_error(
                            step,
                            data.signature@,
                            "Error while parsing signature"@,
                        ),
                        SignatureCheck::Mismatch => replies_error(
                            step,
                            data.signature@,
                            "Invalid signature"@,
                        ),
                        SignatureCheck::Valid => step == PutStep::Next,
                    }
                },
                (UploadRequest::File(file), None) => false,
                (UploadRequest::File(file), Some(step)) => is_file_step(
                    step,
                    old(self).taken(),
                    file,
                    crate::keys::content_cid(file.content@),
                ),
            },
    {
        match upload {
            UploadRequest::Metadata(data) => {
                let check: SignatureCheck = match &data.entry {
                    Some(entry) => {
                        let mut text = self.public_key.as_text().to_owned();
                        text.append("/");
                        text.append(entry.name.as_str());
                        check_signature(
                            text.as_str().as_bytes(),
                            data.signature.as_str(),
                            &self.public_key,
                        )
                    },
                    None => {
                        if is_signature(data.signature.as_str()) {
                            return None;
                        }
                        SignatureCheck::Malformed
                    },
                };
                match judge_metadata(data, check) {
                    Ok(data) => {
                        self.metadata = Some(data);
                        Some(PutStep::Next)
                    },
                    Err(response) => Some(PutStep::Reply(response)),
                }
            },
            UploadRequest::File(file) => {
                let cid = content_id(file.content.as_slice());
                Some(judge_file(&self.metadata, file, cid))
            },
        }
    }

    /// Goes on once it is known whether the file is there already.
    pub fn on_look(&self, location: String, content: Vec<u8>, present: bool) -> (step: PutStep)
        ensures
            present ==> step == PutStep::Next,
            !present ==> step == (PutStep::Write { location, content }),
    {
        if present {
            PutStep::Next
        } else {
            PutStep::Write { location, content }
        }
    }

    /// Goes on once the file was written, or could not be.
    pub fn on_write(&self, written: bool) -> (step: PutStep)
        requires
            self.taken() is Some,
        ensures
            written ==> step == PutStep::Next,
            !written ==> replies_error(
                step,
                self.taken().unwrap().signature@,
                "Error while writing file"@,
            ),
    {
        if written {
            PutStep::Next
        } else {
            let key: String = self.metadata.as_ref().unwrap().signature.clone();
            PutStep::Reply(put_response(Some("Error while writing file".to_owned()), key))
        }
    }

    /// What to ask the DHT once the stream has ended: to store the entry, which is signed with the
    /// key that is handed over.
    pub fn dht_request(&self) -> (request: DhtRequestType)
        requires
            self.taken() is Some,
        ensures
            request matches DhtRequestType::PutRecord(put) && {
                &&& put.public_key@ == self.key()
                &&& put.signature@ == self.taken().unwrap().signature@
                &&& self.taken().unwrap().entry matches Some(entry)
                &&& put.entry.name@ == entry.name@
                &&& put.entry.encoded@ == entry.encoded@
                &&& crate::keys::signature_check(
                    encode_utf8(signed_text(put.public_key@, put.entry.name@)),
                    put.signature@,
                    put.public_key@,
                ) == SignatureCheck::Valid
            },
    {
        proof {
            use_type_invariant(self);
        }
        let data: &PutRequestMetadata = self.metadata.as_ref().unwrap();
        let entry: &ApiEntry = data.entry.as_ref().unwrap();
        DhtRequestType::PutRecord(
            DhtPutRecordRequest {
                public_key: self.public_key.clone(),
                signature: data.signature.clone(),
                entry: ApiEntry { name: entry.name.clone(), encoded: entry.encoded.clone() },
            },
        )
    }

    /// Answers the upload with what came back from the DHT: its response, or why there is none.
    pub fn on_dht_response(&self, response: Result<DhtResponseType, String>) -> (reply: PutResponse)
        requires
            self.taken() is Some,
        ensures
            reply@ == crate::service::put_reply(
                self.taken().unwrap().signature@,
                match response {
                    Err(error) => Some(error@),
                    Ok(DhtResponseType::PutRecord(put)) => match put.error {
                        Some(error) => Some(error@),
                        None => None,
                    },
                    Ok(_) => Some("Unknown error"@),
                },
            ),
    {
        let key: String = self.metadata.as_ref().unwrap().signature.clone();
        match response {
            Err(error) => put_response(Some(error), key),
            Ok(DhtResponseType::PutRecord(put)) => put_response(put.error, key),
            Ok(DhtResponseType::GetRecord(_)) => put_response(
                Some("Unknown error".to_owned()),
                key,
            ),
        }
    }
}

/// Whatever is sent, the metadata taken from an upload was among its messages, has an entry, and
/// is signed with the key of the uploader for the name of that entry.
pub proof fn law_upload_is_authentic(public_key: Seq<char>, uploads: Seq<UploadRequest>)
    ensures
        metadata_after(public_key, uploads) matches Some(data) ==> {
            &&& uploads.contains(UploadRequest::Metadata(data))
            &&& data.entry is Some
            &&& metadata_check(public_key, data) == SignatureCheck::Valid
        },
    decreases uploads.len(),
{
    if uploads.len() > 0 {
        let front = uploads.drop_last();
        law_upload_is_authentic(public_key, front);
        if let Some(data) = metadata_after(public_key, uploads) {
            if metadata_after(public_key, front) == Some(data) {
                let i = choose|i: int|
                    0 <= i < front.len() && front[i] == UploadRequest::Metadata(data);
                assert(uploads[i] == UploadRequest::Metadata(data));
            } else {
                assert(uploads[uploads.len() - 1] == UploadRequest::Metadata(data));
            }
        }
    }
}

/// Authentic metadata stays authentic, whatever message comes next.
pub proof fn law_authenticity_is_kept(
    public_key: Seq<char>,
    metadata: Option<PutRequestMetadata>,
    upload: UploadRequest,
)
    requires
        is_authentic(public_key, metadata),
    ensures
        is_authentic(public_key, next_metadata(public_key, metadata, upload)),
{
}

/// A signature for one entry is for no other: what is signed gives back the key and the name.
pub proof fn law_signed_text_is_unambiguous(
    key: Seq<char>,
    name: Seq<char>,
    other_key: Seq<char>,
    other_name: Seq<char>,
)
    requires
        crate::keys::is_key_text(key),
        crate::keys::is_key_text(other_key),
        encode_utf8(signed_text(key, name)) == encode_utf8(signed_text(other_key, other_name)),
    ensures
        key == other_key,
        name == other_name,
{
    let text = signed_text(key, name);
    let other = signed_text(other_key, other_name);
    encode_utf8_decode_utf8(text);
    encode_utf8_decode_utf8(other);
    let n = key.len() as int;
    let slash = "/"@.len() as int;
    assert(text.take(n) == key);
    assert(other.take(n) == other_key);
    assert(text.skip(n + slash) == name);
    assert(other.skip(n + slash) == other_name);
}

/// A file leaves the metadata taken so far as it is, whatever the file holds and whatever came
/// before it.
pub proof fn law_files_keep_the_metadata(
    public_key: Seq<char>,
    metadata: Option<PutRequestMetadata>,
    uploads: Seq<UploadRequest>,
    file: UploadFile,
)
    ensures
        next_metadata(public_key, metadata, UploadRequest::File(file)) == metadata,
        metadata_after(public_key, uploads.push(UploadRequest::File(file))) == metadata_after(
            public_key,
            uploads,
        ),
{
    assert(uploads.push(UploadRequest::File(file)).drop_last() == uploads);
}

/// However many files come after it, the metadata taken before them is there in the end.
pub proof fn law_metadata_outlasts_the_files(
    public_key: Seq<char>,
    uploads: Seq<UploadRequest>,
    files: Seq<UploadRequest>,
)
    requires
        forall|i: int| 0 <= i < files.len() ==> #[trigger] files[i] is File,
    ensures
        metadata_after(public_key, uploads + files) == metadata_after(public_key, uploads),
    decreases files.len(),
{
    if files.len() == 0 {
        assert(uploads + files == uploads);
    } else {
        let front = files.drop_last();
        assert forall|i: int| 0 <= i < front.len() implies #[trigger] front[i] is File by {
            assert(files[i] is File);
        }
        law_metadata_outlasts_the_files(public_key, uploads, front);
        assert(files[files.len() - 1] is File);
        assert((uploads + files).drop_last() == uploads + front);
    }
}

/// Metadata with an entry, whose signature can be read and verifies over the key, a slash and the
/// name of the entry, is taken, whatever was taken before. No other metadata is.
pub proof fn law_signed_metadata_is_taken(
    public_key: Seq<char>,
    metadata: Option<PutRequestMetadata>,
    uploads: Seq<UploadRequest>,
    data: PutRequestMetadata,
)
    ensures
        ({
            let is_signed = data.entry matches Some(entry) && crate::keys::signature_text(
                data.signature@,
            ) matches Some(signature) && crate::keys::ecdsa_verifies(
                crate::keys::message_digest(
                    encode_utf8(public_key + "/"@ + entry.name@),
                ),
                signature,
                public_key,
            );
            let upload = UploadRequest::Metadata(data);
            &&& is_signed ==> next_metadata(public_key, metadata, upload) == Some(data)
            &&& is_signed ==> metadata_after(public_key, uploads.push(upload)) == Some(data)
            &&& !is_signed ==> next_metadata(public_key, metadata, upload) == metadata
            &&& !is_signed ==> metadata_after(public_key, uploads.push(upload)) == metadata_after(
                public_key,
                uploads,
            )
        }),
{
    assert(uploads.push(UploadRequest::Metadata(data)).drop_last() == uploads);
}

/// Before any message there is no metadata.
pub proof fn law_nothing_is_taken_at_first(public_key: Seq<char>)
    ensures
        metadata_after(public_key, Seq::<UploadRequest>::empty()) is None,
{
}

/// How the signature of metadata with an entry compares: it is valid exactly where it can be read
/// and verifies over the key, a slash and the name, and malformed exactly where it cannot be read.
/// Metadata lacks an entry where it has none though its signature can be read.
pub proof fn law_what_metadata_is_signed_for(
    public_key: Seq<char>,
    data: PutRequestMetadata,
    entry: ApiEntry,
)
    ensures
        data.entry == Some(entry) ==> (metadata_check(public_key, data) == SignatureCheck::Valid
            <==> (crate::keys::signature_text(data.signature@) matches Some(signature)
            && crate::keys::ecdsa_verifies(
            crate::keys::message_digest(encode_utf8(public_key + "/"@ + entry.name@)),
            signature,
            public_key,
        ))),
        metadata_check(public_key, data) == SignatureCheck::Malformed
            <==> crate::keys::signature_text(data.signature@) is None,
        lacks_entry(data) <==> data.entry is None && crate::keys::signature_text(data.signature@)
            is Some,
        signed_text(public_key, entry.name@) == public_key + "/"@ + entry.name@,
{
}

/// Metadata is authentic where there is none, or where it has an entry and its signature can be
/// read and verifies over the key, a slash and the name of the entry.
pub proof fn law_what_is_authentic(public_key: Seq<char>, metadata: Option<PutRequestMetadata>)
    ensures
        is_authentic(public_key, metadata) <==> {
            ||| metadata is None
            ||| {
                &&& metadata matches Some(data)
                &&& data.entry matches Some(entry)
                &&& crate::keys::signature_text(data.signature@) matches Some(signature)
                &&& crate::keys::ecdsa_verifies(
                    crate::keys::message_digest(encode_utf8(public_key + "/"@ + entry.name@)),
                    signature,
                    public_key,
                )
            }
        },
{
}

/// An upload that fails is answered with a response that is no success and holds the signature of
/// the metadata and the error.
pub proof fn law_errors_are_replied(step: PutStep, key: Seq<char>, error: Seq<char>)
    ensures
        replies_error(step, key, error) <==> {
            &&& step matches PutStep::Reply(response)
            &&& response.key@ == key
            &&& !response.success
            &&& response.error matches Some(e)
            &&& e@ == error
        },
{
}

/// A file before any metadata is refused. After metadata, a file is looked for under `./cache/` and
/// its identifier, with its content as it came, exactly where that is the identifier that its
/// content has; any other file ends the upload with the signature of the metadata.
pub proof fn law_what_happens_to_a_file(
    step: PutStep,
    metadata: Option<PutRequestMetadata>,
    file: UploadFile,
    cid: Seq<char>,
)
    requires
        is_file_step(step, metadata, file, cid),
    ensures
        metadata is None <==> step is Refuse,
        step matches PutStep::Refuse(status) ==> status.code == Code::Unknown && status.message@
            == "No metadata received"@,
        step is Look <==> metadata is Some && file.cid@ == cid,
        step matches PutStep::Look { location, content } ==> location@ == "./cache/"@ + file.cid@
            && content@ == file.content@,
        step is Reply <==> metadata is Some && file.cid@ != cid,
        step matches PutStep::Reply(response) ==> {
            &&& response.key@ == metadata.unwrap().signature@
            &&& !response.success
            &&& response.error matches Some(error)
            &&& error@ == "Invalid Cid"@
        },
{
}

} // verus!
