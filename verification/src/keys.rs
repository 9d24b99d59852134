//! Public keys, signatures and content identifiers over secp256k1 and SHA-256.
//!
//! A key and a signature are held by the texts that the `secp256k1` crate writes for them, so that
//! two texts for the same key are one value here.

use secp256k1::ecdsa;
use secp256k1::hashes::sha256;
use secp256k1::{Message, Secp256k1};
use std::str::FromStr;
use vstd::prelude::*;
use vstd::string::*;

verus! {

/// The text that the key written in `text` is displayed as, or `None` where `text` is no key.
pub uninterp spec fn public_key_text(text: Seq<char>) -> Option<Seq<char>>;

/// The text that the signature written in `text` is displayed as, or `None` where `text` is no
/// signature.
pub uninterp spec fn signature_text(text: Seq<char>) -> Option<Seq<char>>;

/// The digest of a message.
pub uninterp spec fn message_digest(data: Seq<u8>) -> Seq<u8>;

/// The signature was made for the digest with the secret half of the key. Signature and key are
/// given by the texts that they are displayed as.
pub uninterp spec fn ecdsa_verifies(
    digest: Seq<u8>,
    signature: Seq<char>,
    public_key: Seq<char>,
) -> bool;

/// A text that a key is displayed as: it is read as the key that it is the text of, and has two
/// hexadecimal digits for each byte of a compressed key.
pub open spec fn is_key_text(text: Seq<char>) -> bool {
    public_key_text(text) == Some(text) && text.len() == 66
}

/// Calls `secp256k1::PublicKey::from_str` and hands the key out as the text that its `Display`
/// writes: the 33 bytes of the compressed key, two hexadecimal digits each. Read again, that text
/// gives the same key.
#[verifier::external_body]
fn parse_public_key(text: &str) -> (key: Option<String>)
    ensures
        match key {
            Some(k) => {
                &&& public_key_text(text@) == Some(k@)
                &&& is_key_text(k@)
            },
            None => public_key_text(text@) is None,
        },
{
    match secp256k1::PublicKey::from_str(text) {
        Ok(key) => Some(key.to_string()),
        Err(_) => None,
    }
}

/// Calls `secp256k1::ecdsa::Signature::from_str` and hands the signature out as the text that its
/// `Display` writes: its DER encoding in hexadecimal digits. Read again, that text gives the same
/// signature.
#[verifier::external_body]
fn parse_signature(text: &str) -> (signature: Option<String>)
    ensures
        match signature {
            Some(s) => {
                &&& signature_text(text@) == Some(s@)
                &&& signature_text(s@) == Some(s@)
            },
            None => signature_text(text@) is None,
        },
{
    match ecdsa::Signature::from_str(text) {
        Ok(signature) => Some(signature.to_string()),
        Err(_) => None,
    }
}

/// Calls `secp256k1::Message::from_hashed_data` with the SHA-256 hash, and hands out the 32 bytes
/// of the message.
#[verifier::external_body]
fn hash_message(data: &[u8]) -> (digest: [u8; 32])
    ensures
        digest@ == message_digest(data@),
{
    *Message::from_hashed_data::<sha256::Hash>(data).as_ref()
}

/// Calls `to_string` on the `secp256k1::Message` with the given bytes. Its `Display` writes each
/// byte as two lower-case hexadecimal digits.
#[verifier::external_body]
fn message_text(digest: &[u8; 32]) -> (text: String)
    ensures
        text@ == lower_hex(digest@),
{
    Message::from_slice(digest).unwrap().to_string()
}

/// Calls `Secp256k1::verify_ecdsa` on a fresh context. Both texts must be as their types display
/// them, so that reading them cannot fail.
#[verifier::external_body]
fn verify_ecdsa(digest: &[u8; 32], signature: &str, public_key: &str) -> (valid: bool)
    requires
        signature_text(signature@) == Some(signature@),
        public_key_text(public_key@) == Some(public_key@),
    ensures
        valid == ecdsa_verifies(digest@, signature@, public_key@),
{
    let message = Message::from_slice(digest).unwrap();
    let signature = ecdsa::Signature::from_str(signature).unwrap();
    let public_key = secp256k1::PublicKey::from_str(public_key).unwrap();
    Secp256k1::new().verify_ecdsa(&message, &signature, &public_key).is_ok()
}

/// A hexadecimal digit in lower case.
pub open spec fn hex_digit(n: int) -> char {
    seq!['0', '1', '2', '3', '4', '5', '6', '7', '8', '9', 'a', 'b', 'c', 'd', 'e', 'f'][n]
}

/// Each byte as two hexadecimal digits, the higher first.
pub open spec fn lower_hex(bytes: Seq<u8>) -> Seq<char> {
    Seq::new(
        2 * bytes.len(),
        |i: int|
            if i % 2 == 0 {
                hex_digit(bytes[i / 2] as int / 16)
            } else {
                hex_digit(bytes[i / 2] as int % 16)
            },
    )
}

/// The content identifier of a file: the digest of its content, in hexadecimal digits.
pub open spec fn content_cid(content: Seq<u8>) -> Seq<char> {
    lower_hex(message_digest(content))
}

/// A public key.
#[derive(Debug, PartialEq, Eq)]
pub struct PublicKey {
    text: String,
}

impl View for PublicKey {
    type V = Seq<char>;

    /// The text that the key is displayed as.
    closed spec fn view(&self) -> Seq<char> {
        self.text@
    }
}

impl PublicKey {
    #[verifier::type_invariant]
    spec fn is_key(self) -> bool {
        is_key_text(self.text@)
    }

    /// Reads a key.
    pub fn parse(text: &str) -> (key: Option<PublicKey>)
        ensures
            match key {
                Some(k) => public_key_text(text@) == Some(k@),
                None => public_key_text(text@) is None,
            },
    {
        match parse_public_key(text) {
            Some(text) => Some(PublicKey { text }),
            None => None,
        }
    }

    /// The text of the key.
    pub fn as_text(&self) -> (text: &str)
        ensures
            text@ == self@,
            is_key_text(text@),
    {
        proof {
            use_type_invariant(self);
        }
        self.text.as_str()
    }
}

impl Clone for PublicKey {
    fn clone(&self) -> (key: PublicKey)
        ensures
            key@ == self@,
    {
        proof {
            use_type_invariant(self);
        }
        PublicKey { text: self.text.clone() }
    }
}

/// How a signature compares with what it is said to sign.
#[derive(Debug, Clone, Copy, PartialEq, Eq, Structural)]
pub enum SignatureCheck {
    /// The text is no signature.
    Malformed,
    /// It signs something else, or with another key.
    Mismatch,
    /// It signs the data with the key.
    Valid,
}

/// How the signature written in `text` compares with `data` and the key.
pub open spec fn signature_check(
    data: Seq<u8>,
    text: Seq<char>,
    public_key: Seq<char>,
) -> SignatureCheck {
    match signature_text(text) {
        None => SignatureCheck::Malformed,
        Some(signature) => if ecdsa_verifies(message_digest(data), signature, public_key) {
            SignatureCheck::Valid
        } else {
            SignatureCheck::Mismatch
        },
    }
}

/// Reads the signature in `text` and holds it against `data` and the key.
pub fn check_signature(data: &[u8], text: &str, public_key: &PublicKey) -> (check: SignatureCheck)
    ensures
        check == signature_check(data@, text@, public_key@),
{
    match parse_signature(text) {
        None => SignatureCheck::Malformed,
        Some(signature) => {
            let digest: [u8; 32] = hash_message(data);
            if verify_ecdsa(&digest, signature.as_str(), public_key.as_text()) {
                SignatureCheck::Valid
            } else {
                SignatureCheck::Mismatch
            }
        },
    }
}

/// Whether a text is a signature at all.
pub fn is_signature(text: &str) -> (b: bool)
    ensures
        b == (signature_text(text@) is Some),
{
    parse_signature(text).is_some()
}

/// Computes the content identifier of a file.
pub fn content_id(content: &[u8]) -> (cid: String)
    ensures
        cid@ == content_cid(content@),
{
    let digest: [u8; 32] = hash_message(content);
    message_text(&digest)
}

/// Different bytes are written differently: two contents have the same identifier exactly where
/// they have the same digest.
pub proof fn law_cid_is_digest(a: Seq<u8>, b: Seq<u8>)
    ensures
        content_cid(a) == content_cid(b) <==> message_digest(a) == message_digest(b),
{
    law_lower_hex_injective(message_digest(a), message_digest(b));
}

/// Bytes can be read back from their hexadecimal digits.
pub proof fn law_lower_hex_injective(a: Seq<u8>, b: Seq<u8>)
    ensures
        lower_hex(a) == lower_hex(b) ==> a == b,
{
    if lower_hex(a) == lower_hex(b) {
        let x = lower_hex(a);
        let y = lower_hex(b);
        assert(x.len() == 2 * a.len() && y.len() == 2 * b.len());
        assert forall|i: int| 0 <= i < a.len() implies a[i] == b[i] by {
            assert(x[2 * i] == hex_digit(a[i] as int / 16));
            assert(y[2 * i] == hex_digit(b[i] as int / 16));
            assert(x[2 * i + 1] == hex_digit(a[i] as int % 16));
            assert(y[2 * i + 1] == hex_digit(b[i] as int % 16));
            lemma_hex_digit_injective(a[i] as int / 16, b[i] as int / 16);
            lemma_hex_digit_injective(a[i] as int % 16, b[i] as int % 16);
        }
        assert(a =~= b);
    }
}

proof fn lemma_hex_digit_injective(m: int, n: int)
    requires
        0 <= m < 16,
        0 <= n < 16,
        hex_digit(m) == hex_digit(n),
    ensures
        m == n,
{
}

/// A signature holds exactly where it can be read and verifies over the digest of the data itself;
/// it is malformed exactly where it cannot be read.
pub proof fn law_signature_over_the_data(data: Seq<u8>, text: Seq<char>, public_key: Seq<char>)
    ensures
        signature_check(data, text, public_key) == SignatureCheck::Valid <==> (signature_text(
            text,
        ) matches Some(signature) && ecdsa_verifies(message_digest(data), signature, public_key)),
        signature_check(data, text, public_key) == SignatureCheck::Malformed <==> signature_text(
            text,
        ) is None,
{
}

/// The identifier of a content has two characters for each byte of the digest: `0` to `9` and `a`
/// to `f` for the sixteens and for the ones of the byte.
pub proof fn law_cid_digits(content: Seq<u8>, i: int)
    requires
        0 <= i < message_digest(content).len(),
    ensures
        content_cid(content).len() == 2 * message_digest(content).len(),
        ({
            let high = message_digest(content)[i] as int / 16;
            let low = message_digest(content)[i] as int % 16;
            let first = content_cid(content)[2 * i] as int;
            let second = content_cid(content)[2 * i + 1] as int;
            &&& first == if high < 10 { '0' as int + high } else { 'a' as int + high - 10 }
            &&& second == if low < 10 { '0' as int + low } else { 'a' as int + low - 10 }
        }),
{
    let cid = lower_hex(message_digest(content));
    assert(cid[2 * i] == hex_digit(message_digest(content)[i] as int / 16));
    assert(cid[2 * i + 1] == hex_digit(message_digest(content)[i] as int % 16));
}

/// The text of a key is read as itself.
pub proof fn law_key_text_is_read_as_itself(text: Seq<char>)
    ensures
        is_key_text(text) <==> public_key_text(text) == Some(text) && text.len() == 66,
{
}

} // verus!
