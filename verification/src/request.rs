//! The metadata that comes with every call.

use crate::keys::PublicKey;
use crate::service::{Code, Status};
use tonic::metadata::{Ascii, MetadataMap, MetadataValue};
use vstd::prelude::*;
use vstd::string::*;

verus! {

/// The metadata of a call, as the gRPC crate holds it.
#[verifier::external_type_specification]
#[verifier::external_body]
pub struct ExMetadataMap(tonic::metadata::MetadataMap);

/// The bytes that the metadata gives for each key, the first where a key has several.
pub uninterp spec fn metadata_entries(metadata: MetadataMap) -> Map<Seq<char>, Seq<u8>>;

/// Calls `MetadataMap::get`, which finds the first value of a key, and hands its bytes out.
#[verifier::external_body]
fn metadata_get(metadata: &MetadataMap, key: &str) -> (value: Option<Vec<u8>>)
    ensures
        match value {
            Some(v) => {
                &&& metadata_entries(*metadata).contains_key(key@)
                &&& metadata_entries(*metadata)[key@] == v@
            },
            None => !metadata_entries(*metadata).contains_key(key@),
        },
{
    match metadata.get(key) {
        Some(value) => Some(value.as_bytes().to_vec()),
        None => None,
    }
}

/// A byte that a metadata value may have to be read as text: a visible ASCII character, a space
/// or a tab.
pub open spec fn is_visible(b: u8) -> bool {
    32 <= b < 127 || b == 9
}

/// The bytes of a metadata value that can be read as text.
pub open spec fn is_text(value: Seq<u8>) -> bool {
    forall|i: int| 0 <= i < value.len() ==> is_visible(#[trigger] value[i])
}

/// The bytes as the characters with their numbers.
pub open spec fn ascii_text(value: Seq<u8>) -> Seq<char> {
    value.map_values(|b: u8| b as char)
}

/// Calls `MetadataValue::to_str` on the ASCII value with the given bytes. It gives the text where
/// every byte is visible ASCII, a space or a tab. Bytes that no value can have fail as well: none
/// of them is one of these.
#[verifier::external_body]
fn metadata_to_str(value: &[u8]) -> (text: Option<String>)
    ensures
        match text {
            Some(t) => is_text(value@) && t@ == ascii_text(value@),
            None => !is_text(value@),
        },
{
    match MetadataValue::<Ascii>::try_from(value) {
        Ok(value) => match value.to_str() {
            Ok(text) => Some(text.to_owned()),
            Err(_) => None,
        },
        Err(_) => None,
    }
}

/// The text of a metadata value, or the status that a call without one is refused with.
pub fn header_text(header: Option<Vec<u8>>) -> (text: Result<String, Status>)
    ensures
        match text {
            Ok(text) => {
                &&& header matches Some(value)
                &&& is_text(value@)
                &&& text@ == ascii_text(value@)
            },
            Err(status) => {
                ||| {
                    &&& header is None
                    &&& crate::service::status_is(
                        status,
                        Code::Unknown,
                        "No public_key provided"@,
                    )
                }
                ||| {
                    &&& header matches Some(value)
                    &&& !is_text(value@)
                    &&& crate::service::status_is(
                        status,
                        Code::Unknown,
                        "Public_key must be str"@,
                    )
                }
            },
        },
{
    match header {
        None => Err(
            Status { code: Code::Unknown, message: "No public_key provided".to_owned() },
        ),
        Some(value) => match metadata_to_str(value.as_slice()) {
            Some(text) => Ok(text),
            None => Err(
                Status { code: Code::Unknown, message: "Public_key must be str".to_owned() },
            ),
        },
    }
}

/// The key that was read, or the status that a call without one is refused with.
pub fn accept_public_key(parsed: Option<PublicKey>) -> (key: Result<PublicKey, Status>)
    ensures
        match key {
            Ok(key) => parsed == Some(key),
            Err(status) => {
                &&& parsed is None
                &&& crate::service::status_is(status, Code::Unknown, "Invalid public_key"@)
            },
        },
{
    match parsed {
        Some(key) => Ok(key),
        None => Err(Status { code: Code::Unknown, message: "Invalid public_key".to_owned() }),
    }
}

/// What the metadata of a call says about the key of the caller.
pub enum KeyHeader {
    Missing,
    NotText,
    Invalid,
    Key(Seq<char>),
}

/// Reads the key of the caller off the metadata of a call.
pub open spec fn key_header(metadata: MetadataMap) -> KeyHeader {
    let entries = metadata_entries(metadata);
    if !entries.contains_key("public_key"@) {
        KeyHeader::Missing
    } else if !is_text(entries["public_key"@]) {
        KeyHeader::NotText
    } else {
        match crate::keys::public_key_text(ascii_text(entries["public_key"@])) {
            Some(key) => KeyHeader::Key(key),
            None => KeyHeader::Invalid,
        }
    }
}

/// The public key that a call came with.
pub fn public_key_of(metadata: &MetadataMap) -> (key: Result<PublicKey, Status>)
    ensures
        match (key_header(*metadata), key) {
            (KeyHeader::Key(text), Ok(key)) => key@ == text,
            (KeyHeader::Missing, Err(status)) => crate::service::status_is(
                status,
                Code::Unknown,
                "No public_key provided"@,
            ),
            (KeyHeader::NotText, Err(status)) => crate::service::status_is(
                status,
                Code::Unknown,
                "Public_key must be str"@,
            ),
            (KeyHeader::Invalid, Err(status)) => crate::service::status_is(
                status,
                Code::Unknown,
                "Invalid public_key"@,
            ),
            _ => false,
        },
{
    match header_text(metadata_get(metadata, "public_key")) {
        Ok(text) => accept_public_key(PublicKey::parse(text.as_str())),
        Err(status) => Err(status),
    }
}

/// A value is text exactly where all its bytes are 32 to 126 or a tab, and is then read character
/// by character.
pub proof fn law_text_of_a_value(value: Seq<u8>)
    ensures
        is_text(value) <==> forall|i: int|
            0 <= i < value.len() ==> (32 <= #[trigger] value[i] <= 126 || value[i] == 9),
        ascii_text(value).len() == value.len(),
        forall|i: int|
            0 <= i < value.len() ==> #[trigger] ascii_text(value)[i] as int == value[i] as int,
{
    if forall|i: int|
        0 <= i < value.len() ==> (32 <= #[trigger] value[i] <= 126 || value[i] == 9) {
        assert(is_text(value));
    }
    if is_text(value) {
        assert forall|i: int| 0 <= i < value.len() implies (32 <= #[trigger] value[i] <= 126
            || value[i] == 9) by {
            assert(is_visible(value[i]));
        }
    }
}

/// The key of a call is what its `public_key` is read as. Without it the key is missing; where it
/// has a byte that is not 32 to 126 or a tab it is no text; and where it is text but cannot be
/// read as a key it is invalid.
pub proof fn law_key_of_a_call(metadata: MetadataMap)
    ensures
        key_header(metadata) is Missing <==> !metadata_entries(metadata).contains_key("public_key"@),
        metadata_entries(metadata).contains_key("public_key"@) ==> {
            let value = metadata_entries(metadata)["public_key"@];
            let visible = forall|i: int|
                0 <= i < value.len() ==> (32 <= #[trigger] value[i] <= 126 || value[i] == 9);
            let read = crate::keys::public_key_text(
                Seq::new(value.len(), |i: int| value[i] as char),
            );
            &&& key_header(metadata) is NotText <==> !visible
            &&& key_header(metadata) is Invalid <==> visible && read is None
            &&& visible && read is Some ==> key_header(metadata) == KeyHeader::Key(read.unwrap())
        },
{
    if metadata_entries(metadata).contains_key("public_key"@) {
        let value = metadata_entries(metadata)["public_key"@];
        law_text_of_a_value(value);
        assert(Seq::new(value.len(), |i: int| value[i] as char) == ascii_text(value));
    }
}

} // verus!
