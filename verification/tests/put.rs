use secp256k1::hashes::sha256;
use secp256k1::{Message, Secp256k1, SecretKey};
use storage_node::dht::{
    DhtGetRecordResponse, DhtPutRecordResponse, DhtRequestType, DhtResponseType,
};
use storage_node::keys::{PublicKey, SignatureCheck};
use storage_node::put::{judge_file, judge_metadata, PutSession, PutStep};
use storage_node::service::{
    put_response, ApiEntry, Code, PutRequestMetadata, PutResponse, Status, UploadFile,
    UploadRequest,
};

const ABC: &str = "ba7816bf8f01cfea414140de5dae2223b00361a396177a9cb410ff61f20015ad";

fn key_text() -> String {
    let secp = Secp256k1::new();
    SecretKey::from_slice(&[7; 32]).unwrap().public_key(&secp).to_string()
}

fn sign(data: &str) -> String {
    let key = SecretKey::from_slice(&[7; 32]).unwrap();
    let message = Message::from_hashed_data::<sha256::Hash>(data.as_bytes());
    Secp256k1::new().sign_ecdsa(&message, &key).to_string()
}

fn session() -> PutSession {
    PutSession::new(PublicKey::parse(&key_text()).unwrap())
}

fn metadata(name: &str, signature: &str) -> PutRequestMetadata {
    PutRequestMetadata {
        signature: signature.to_string(),
        entry: Some(ApiEntry { name: name.to_string(), encoded: vec![1, 2, 3] }),
    }
}

fn signed(name: &str) -> PutRequestMetadata {
    metadata(name, &sign(&format!("{}/{}", key_text(), name)))
}

fn file(content: &[u8], cid: &str) -> UploadRequest {
    UploadRequest::File(UploadFile { cid: cid.to_string(), content: content.to_vec() })
}

fn failed(key: &str, error: &str) -> PutStep {
    PutStep::Reply(PutResponse {
        key: key.to_string(),
        success: false,
        error: Some(error.to_string()),
    })
}

#[test]
fn signed_metadata_is_taken() {
    let mut session = session();
    let step = session.on_upload(UploadRequest::Metadata(signed("photos")));
    assert_eq!(step, Some(PutStep::Next));
    assert_eq!(session.metadata(), &Some(signed("photos")));
}

#[test]
fn later_metadata_replaces_earlier() {
    let mut session = session();
    session.on_upload(UploadRequest::Metadata(signed("photos"))).unwrap();
    session.on_upload(UploadRequest::Metadata(signed("music"))).unwrap();
    assert_eq!(session.metadata(), &Some(signed("music")));
}

#[test]
fn unreadable_signature() {
    let mut session = session();
    let step = session.on_upload(UploadRequest::Metadata(metadata("photos", "xyz")));
    assert_eq!(step, Some(failed("xyz", "Error while parsing signature")));
    let data = PutRequestMetadata { signature: "xyz".to_string(), entry: None };
    let step = session.on_upload(UploadRequest::Metadata(data));
    assert_eq!(step, Some(failed("xyz", "Error while parsing signature")));
    assert_eq!(session.metadata(), &None);
}

#[test]
fn signature_for_another_entry() {
    let mut session = session();
    session.on_upload(UploadRequest::Metadata(signed("photos"))).unwrap();
    let signature = signed("music").signature;
    let step = session.on_upload(UploadRequest::Metadata(metadata("photos", &signature)));
    assert_eq!(step, Some(failed(&signature, "Invalid signature")));
    assert_eq!(session.metadata(), &Some(signed("photos")));
}

#[test]
fn signature_of_another_uploader() {
    let secp = Secp256k1::new();
    let other = SecretKey::from_slice(&[8; 32]).unwrap().public_key(&secp).to_string();
    let mut session = PutSession::new(PublicKey::parse(&other).unwrap());
    for signed_for in [key_text(), other.clone()] {
        let signature = sign(&format!("{}/photos", signed_for));
        let step = session.on_upload(UploadRequest::Metadata(metadata("photos", &signature)));
        assert_eq!(step, Some(failed(&signature, "Invalid signature")));
    }
}

#[test]
fn signature_without_entry_has_no_step() {
    let mut session = session();
    let data = PutRequestMetadata { signature: signed("photos").signature, entry: None };
    assert_eq!(session.on_upload(UploadRequest::Metadata(data)), None);
    assert_eq!(session.metadata(), &None);
}

#[test]
fn files_must_not_come_first() {
    let mut session = session();
    let refused = Status { code: Code::Unknown, message: "No metadata received".to_string() };
    assert_eq!(session.on_upload(file(b"abc", ABC)), Some(PutStep::Refuse(refused)));
}

#[test]
fn file_is_kept_under_its_content() {
    let mut session = session();
    session.on_upload(UploadRequest::Metadata(signed("photos"))).unwrap();
    let location = "./cache/ba7816bf8f01cfea414140de5dae2223b00361a396177a9cb410ff61f20015ad";
    assert_eq!(
        session.on_upload(file(b"abc", ABC)),
        Some(PutStep::Look { location: location.to_string(), content: b"abc".to_vec() })
    );
}

#[test]
fn file_with_another_content() {
    let mut session = session();
    session.on_upload(UploadRequest::Metadata(signed("photos"))).unwrap();
    let wrong = Some(failed(&signed("photos").signature, "Invalid Cid"));
    assert_eq!(session.on_upload(file(b"abd", ABC)), wrong);
    assert_eq!(session.on_upload(file(b"abc", &ABC.to_uppercase())), wrong);
}

#[test]
fn judgements_on_given_values() {
    let data = || metadata("a", "s");
    let error = |error: &str| Err(put_response(Some(error.to_string()), "s".to_string()));
    assert_eq!(
        judge_metadata(data(), SignatureCheck::Malformed),
        error("Error while parsing signature")
    );
    assert_eq!(judge_metadata(data(), SignatureCheck::Mismatch), error("Invalid signature"));
    assert_eq!(judge_metadata(data(), SignatureCheck::Valid), Ok(data()));
    let upload = || UploadFile { cid: "c".to_string(), content: vec![9] };
    assert_eq!(
        judge_file(&Some(data()), upload(), "c".to_string()),
        PutStep::Look { location: "./cache/c".to_string(), content: vec![9] }
    );
    assert_eq!(
        judge_file(&Some(data()), upload(), "d".to_string()),
        failed("s", "Invalid Cid")
    );
    assert_eq!(
        judge_file(&None, upload(), "c".to_string()),
        PutStep::Refuse(Status {
            code: Code::Unknown,
            message: "No metadata received".to_string()
        })
    );
}

#[test]
fn files_that_are_there_are_not_written() {
    let session = session();
    assert_eq!(session.on_look("p".to_string(), vec![1], true), PutStep::Next);
    assert_eq!(
        session.on_look("p".to_string(), vec![1], false),
        PutStep::Write { location: "p".to_string(), content: vec![1] }
    );
}

#[test]
fn writing_may_fail() {
    let mut session = session();
    session.on_upload(UploadRequest::Metadata(signed("photos"))).unwrap();
    assert_eq!(session.on_write(true), PutStep::Next);
    assert_eq!(
        session.on_write(false),
        failed(&signed("photos").signature, "Error while writing file")
    );
}

#[test]
fn dht_is_asked_for_the_signed_entry() {
    let mut session = session();
    session.on_upload(UploadRequest::Metadata(signed("photos"))).unwrap();
    match session.dht_request() {
        DhtRequestType::PutRecord(put) => {
            assert_eq!(put.public_key.as_text(), key_text());
            assert_eq!(put.signature, signed("photos").signature);
            assert_eq!(put.entry, signed("photos").entry.unwrap());
        }
        DhtRequestType::GetRecord(_) => panic!("nothing is to be read"),
    }
}

#[test]
fn answers_after_the_dht() {
    let mut session = session();
    session.on_upload(UploadRequest::Metadata(signed("photos"))).unwrap();
    let key = signed("photos").signature;
    let stored = DhtPutRecordResponse { signature: None, error: None };
    assert_eq!(
        session.on_dht_response(Ok(DhtResponseType::PutRecord(stored))),
        PutResponse { key: key.clone(), success: true, error: None }
    );
    let full = DhtPutRecordResponse { signature: None, error: Some("full".to_string()) };
    assert_eq!(
        session.on_dht_response(Ok(DhtResponseType::PutRecord(full))),
        put_response(Some("full".to_string()), key.clone())
    );
    let found = DhtGetRecordResponse { entry: None, error: None, location: None };
    assert_eq!(
        session.on_dht_response(Ok(DhtResponseType::GetRecord(found))),
        put_response(Some("Unknown error".to_string()), key.clone())
    );
    assert_eq!(
        session.on_dht_response(Err("channel closed".to_string())),
        put_response(Some("channel closed".to_string()), key)
    );
}

#[test]
fn success_is_having_no_error() {
    assert_eq!(
        put_response(None, "k".to_string()),
        PutResponse { key: "k".to_string(), success: true, error: None }
    );
    assert_eq!(
        put_response(Some("e".to_string()), "k".to_string()),
        PutResponse { key: "k".to_string(), success: false, error: Some("e".to_string()) }
    );
}
