use storage_node::request::{accept_public_key, header_text, public_key_of};
use storage_node::service::{Code, Status};
use tonic::metadata::{MetadataMap, MetadataValue};

const GENERATOR: &str = "0279be667ef9dcbbac55a06295ce870b07029bfcdb2dce28d959f2815b16f81798";

fn unknown(message: &str) -> Status {
    Status { code: Code::Unknown, message: message.to_string() }
}

fn metadata(value: &[u8]) -> MetadataMap {
    let mut map = MetadataMap::new();
    map.insert("public_key", MetadataValue::try_from(value).unwrap());
    map
}

#[test]
fn key_is_read() {
    let key = public_key_of(&metadata(GENERATOR.as_bytes())).unwrap();
    assert_eq!(key.as_text(), GENERATOR);
}

#[test]
fn first_value_counts() {
    let mut map = metadata(GENERATOR.as_bytes());
    map.append("public_key", MetadataValue::try_from(&b"other"[..]).unwrap());
    assert_eq!(public_key_of(&map).unwrap().as_text(), GENERATOR);
}

#[test]
fn missing_key() {
    let mut map = MetadataMap::new();
    assert_eq!(public_key_of(&map), Err(unknown("No public_key provided")));
    map.insert("publickey", MetadataValue::try_from(GENERATOR.as_bytes()).unwrap());
    assert_eq!(public_key_of(&map), Err(unknown("No public_key provided")));
}

#[test]
fn key_that_is_no_text() {
    assert_eq!(
        public_key_of(&metadata(&[0x30, 0xe9])),
        Err(unknown("Public_key must be str"))
    );
}

#[test]
fn key_that_is_no_key() {
    assert_eq!(public_key_of(&metadata(b"hello")), Err(unknown("Invalid public_key")));
    assert_eq!(accept_public_key(None), Err(unknown("Invalid public_key")));
}

#[test]
fn text_of_a_value() {
    assert_eq!(header_text(Some(b"a \t~".to_vec())), Ok("a \t~".to_string()));
    assert_eq!(header_text(Some(Vec::new())), Ok(String::new()));
    for byte in [0u8, 10, 31, 127, 128, 255] {
        assert_eq!(header_text(Some(vec![byte])), Err(unknown("Public_key must be str")));
    }
    assert_eq!(header_text(None), Err(unknown("No public_key provided")));
}
