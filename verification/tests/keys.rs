use secp256k1::hashes::sha256;
use secp256k1::{Message, Secp256k1, SecretKey};
use storage_node::keys::{check_signature, content_id, is_signature, PublicKey, SignatureCheck};

const GENERATOR: &str = "0279be667ef9dcbbac55a06295ce870b07029bfcdb2dce28d959f2815b16f81798";
const GENERATOR_LONG: &str = "0479BE667EF9DCBBAC55A06295CE870B07029BFCDB2DCE28D959F2815B16F81798\
483ADA7726A3C4655DA4FBFC0E1108A8FD17B448A68554199C47D08FFB10D4B8";

fn sign(secret: u8, data: &[u8]) -> (String, String) {
    let secp = Secp256k1::new();
    let key = SecretKey::from_slice(&[secret; 32]).unwrap();
    let message = Message::from_hashed_data::<sha256::Hash>(data);
    let signature = secp.sign_ecdsa(&message, &key);
    (key.public_key(&secp).to_string(), signature.to_string())
}

#[test]
fn content_ids() {
    assert_eq!(
        content_id(b""),
        "e3b0c44298fc1c149afbf4c8996fb92427ae41e4649b934ca495991b7852b855"
    );
    assert_eq!(
        content_id(b"abc"),
        "ba7816bf8f01cfea414140de5dae2223b00361a396177a9cb410ff61f20015ad"
    );
}

#[test]
fn keys_are_held_compressed() {
    let key = PublicKey::parse(GENERATOR).unwrap();
    assert_eq!(key.as_text(), GENERATOR);
    let same = PublicKey::parse(GENERATOR_LONG).unwrap();
    assert_eq!(same.as_text(), GENERATOR);
    assert_eq!(same, key);
    assert_eq!(key.clone(), key);
}

#[test]
fn what_is_no_key() {
    for text in ["", "02", "zz", &GENERATOR[1..], &"0".repeat(66)] {
        assert!(PublicKey::parse(text).is_none());
    }
}

#[test]
fn signatures_are_checked() {
    let (key, signature) = sign(7, b"hello");
    let (other_key, _) = sign(8, b"hello");
    let key = PublicKey::parse(&key).unwrap();
    let other_key = PublicKey::parse(&other_key).unwrap();
    assert_eq!(check_signature(b"hello", &signature, &key), SignatureCheck::Valid);
    assert_eq!(
        check_signature(b"hello", &signature.to_uppercase(), &key),
        SignatureCheck::Valid
    );
    assert_eq!(check_signature(b"hullo", &signature, &key), SignatureCheck::Mismatch);
    assert_eq!(check_signature(b"hello", &signature, &other_key), SignatureCheck::Mismatch);
    assert_eq!(check_signature(b"hello", "", &key), SignatureCheck::Malformed);
    assert_eq!(check_signature(b"hello", "30", &key), SignatureCheck::Malformed);
}

#[test]
fn what_is_a_signature() {
    let (_, signature) = sign(7, b"hello");
    assert!(is_signature(&signature));
    assert!(!is_signature(&signature[2..]));
    assert!(!is_signature("not hexadecimal"));
}
