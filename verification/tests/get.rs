use secp256k1::hashes::sha256;
use secp256k1::{Message, Secp256k1, SecretKey};
use storage_node::dht::{
    DhtGetRecordRequest, DhtGetRecordResponse, DhtPutRecordResponse, DhtRequestType,
    DhtResponseType,
};
use storage_node::entry::{Children, Entry, EntryMetaData};
use storage_node::get::{
    begin_get, can_answer, failure, judge_get, listing, on_dht_response, GetOutcome, GetStep,
};
use storage_node::keys::{PublicKey, SignatureCheck};
use storage_node::service::{
    Code, DownloadResponse, GetRequest, GetResponse, GetResponseMetadata, Status,
};

fn key() -> PublicKey {
    let secp = Secp256k1::new();
    let key = SecretKey::from_slice(&[9; 32]).unwrap();
    PublicKey::parse(&key.public_key(&secp).to_string()).unwrap()
}

fn sign(data: &str) -> String {
    let key = SecretKey::from_slice(&[9; 32]).unwrap();
    let message = Message::from_hashed_data::<sha256::Hash>(data.as_bytes());
    Secp256k1::new().sign_ecdsa(&message, &key).to_string()
}

fn request(location: &str, sig: &str) -> GetRequest {
    GetRequest { location: location.to_string(), sig: sig.to_string(), download: false }
}

fn children() -> Vec<Children> {
    vec![Children { name: "a".to_string(), kind: "file".to_string(), cid: Some("c".to_string()) }]
}

fn entry() -> Entry {
    Entry { metadata: EntryMetaData { children: children() } }
}

fn response(
    entry: Option<Entry>,
    error: Option<&str>,
    location: Option<&str>,
) -> Result<DhtResponseType, String> {
    Ok(DhtResponseType::GetRecord(DhtGetRecordResponse {
        entry,
        error: error.map(|e| e.to_string()),
        location: location.map(|l| l.to_string()),
    }))
}

fn asked(location: &str, sig: &str) -> GetStep {
    GetStep::Ask(DhtRequestType::GetRecord(DhtGetRecordRequest {
        signature: location.to_string(),
        name: sig.to_string(),
        public_key: key(),
    }))
}

#[test]
fn signed_location_is_asked_for() {
    let sig = sign("e_abc/docs");
    assert_eq!(begin_get(key(), &request("e_abc/docs", &sig)), Some(asked("e_abc/docs", &sig)));
}

#[test]
fn other_location_is_denied() {
    let sig = sign("e_abc/docs");
    assert_eq!(
        begin_get(key(), &request("e_abc", &sig)),
        Some(GetStep::Deny(failure("Invalid signature".to_string())))
    );
}

#[test]
fn unreadable_signature_has_no_answer() {
    assert_eq!(begin_get(key(), &request("e_abc", "nonsense")), None);
}

#[test]
fn judgement_on_given_values() {
    let asks = request("l", "s");
    assert_eq!(judge_get(key(), &asks, SignatureCheck::Valid), asked("l", "s"));
    assert_eq!(
        judge_get(key(), &asks, SignatureCheck::Mismatch),
        GetStep::Deny(failure("Invalid signature".to_string()))
    );
}

#[test]
fn responses() {
    assert_eq!(
        failure("why".to_string()),
        GetResponse {
            download_response: Some(DownloadResponse::Metadata(GetResponseMetadata {
                entry: None,
                children: Vec::new(),
                success: false,
                error: Some("why".to_string()),
            }))
        }
    );
    assert_eq!(
        listing(children()),
        GetResponse {
            download_response: Some(DownloadResponse::Metadata(GetResponseMetadata {
                entry: None,
                children: children(),
                success: true,
                error: None,
            }))
        }
    );
}

#[test]
fn error_of_the_dht_refuses() {
    let answer = response(None, Some("not yours"), None);
    assert!(can_answer(&answer, false));
    assert_eq!(
        on_dht_response(answer, false),
        GetOutcome::Refuse(Status {
            code: Code::Unauthenticated,
            message: "not yours".to_string()
        })
    );
}

#[test]
fn files_are_downloaded() {
    assert_eq!(
        on_dht_response(response(Some(entry()), None, Some("/")), true),
        GetOutcome::Download { location: Some("/".to_string()), entry: entry() }
    );
    assert_eq!(
        on_dht_response(response(Some(entry()), None, None), true),
        GetOutcome::Download { location: None, entry: entry() }
    );
}

#[test]
fn items_are_listed() {
    assert_eq!(
        on_dht_response(response(Some(entry()), None, Some("/")), false),
        GetOutcome::List { entry: entry(), location: None }
    );
    assert_eq!(
        on_dht_response(response(Some(entry()), None, Some("docs")), false),
        GetOutcome::List { entry: entry(), location: Some("docs".to_string()) }
    );
}

#[test]
fn other_answers_are_reported() {
    let stored = DhtPutRecordResponse { signature: None, error: None };
    assert_eq!(
        on_dht_response(Ok(DhtResponseType::PutRecord(stored)), false),
        GetOutcome::Report("unknown error".to_string())
    );
    assert_eq!(
        on_dht_response(Err("closed".to_string()), true),
        GetOutcome::Report("closed".to_string())
    );
}

#[test]
fn incomplete_answers_are_told() {
    assert!(!can_answer(&response(None, None, Some("/")), true));
    assert!(!can_answer(&response(Some(entry()), None, None), false));
    assert!(can_answer(&response(Some(entry()), None, None), true));
    assert!(can_answer(&Err("closed".to_string()), false));
}
