//! Calls into other crates.
//!
//! Every function here makes one outside call. What it promises is taken from the
//! documentation of that call and is not proved.

use aes::cipher::{BlockDecryptMut, KeyIvInit};
use base64::Engine;
use sha2::Digest;
use vstd::prelude::*;

verus! {

/// What `url::Url::parse` makes of a text: the address in its normal form, or the
/// message of its error.
pub uninterp spec fn url_parsed(text: Seq<char>) -> Result<Seq<char>, Seq<char>>;

/// What `url::Url::join` makes of a reference against a base address.
pub uninterp spec fn url_joined(base: Seq<char>, reference: Seq<char>) -> Option<Seq<char>>;

/// The host that `url::Url::host_str` finds in an address.
pub uninterp spec fn url_host(text: Seq<char>) -> Option<Seq<char>>;

/// The SHA-256 digest of some bytes.
pub uninterp spec fn sha256_digest(data: Seq<u8>) -> Seq<u8>;

/// What AES-128 in CBC mode with PKCS#7 padding decrypts some bytes to; none if the
/// padding is malformed.
pub uninterp spec fn aes128_cbc_plain(key: Seq<u8>, iv: Seq<u8>, data: Seq<u8>) -> Option<Seq<u8>>;

/// What the standard Base64 alphabet decodes a text to, or the message of its error.
pub uninterp spec fn base64_bytes(text: Seq<char>) -> Result<Seq<u8>, Seq<char>>;

/// The standard Base64 form of some bytes.
pub uninterp spec fn base64_text(data: Seq<u8>) -> Seq<char>;

/// The small hexadecimal digit of a number below sixteen.
pub open spec fn hex_digit(d: int) -> char {
    if d < 10 { (48 + d) as char } else { (87 + d) as char }
}

/// Two small hexadecimal digits per byte.
pub open spec fn hex_text(data: Seq<u8>) -> Seq<char> {
    Seq::new(
        2 * data.len(),
        |i: int| hex_digit(if i % 2 == 0 { data[i / 2] as int / 16 } else { data[i / 2] as int % 16 }),
    )
}

/// `url::Url::parse`, with the address as text. The result is a function of the text;
/// which one is left to the crate.
#[verifier::external_body]
pub(crate) fn parse_url(text: &str) -> (r: Result<String, String>)
    ensures
        match r {
            Ok(u) => url_parsed(text@) == Ok::<Seq<char>, Seq<char>>(u@),
            Err(e) => url_parsed(text@) == Err::<Seq<char>, Seq<char>>(e@),
        },
{
    match url::Url::parse(text) {
        Ok(u) => Ok(u.to_string()),
        Err(e) => Err(e.to_string()),
    }
}

/// `url::Url::join` of the address `base`, with the result as text; none if the base or
/// the joined address is not valid. The result is a function of the two texts; which
/// one is left to the crate.
#[verifier::external_body]
pub(crate) fn join_url(base: &str, reference: &str) -> (r: Option<String>)
    ensures
        match r {
            Some(u) => url_joined(base@, reference@) == Some(u@),
            None => url_joined(base@, reference@) is None,
        },
{
    match url::Url::parse(base) {
        Ok(b) => match b.join(reference) {
            Ok(u) => Some(u.to_string()),
            Err(_) => None,
        },
        Err(_) => None,
    }
}

/// `url::Url::host_str` of an address; none if the address is not valid or has no host.
/// The result is a function of the text; which one is left to the crate.
#[verifier::external_body]
pub(crate) fn host_of(text: &str) -> (r: Option<String>)
    ensures
        match r {
            Some(h) => url_host(text@) == Some(h@),
            None => url_host(text@) is None,
        },
{
    match url::Url::parse(text) {
        Ok(u) => match u.host_str() {
            Some(h) => Some(h.to_string()),
            None => None,
        },
        Err(_) => None,
    }
}

/// `sha2::Sha256::digest`. The digest has 32 bytes and is a function of the data.
#[verifier::external_body]
pub(crate) fn sha256(data: &[u8]) -> (r: Vec<u8>)
    ensures
        r@ == sha256_digest(data@),
        r@.len() == 32,
{
    sha2::Sha256::digest(data).to_vec()
}

/// `hex::encode`: two small hexadecimal digits per byte.
#[verifier::external_body]
pub(crate) fn hex_encode(data: &Vec<u8>) -> (r: String)
    requires
        data@.len() <= usize::MAX / 4,
    ensures
        r@ == hex_text(data@),
{
    hex::encode(data)
}

/// `cbc::Decryptor<aes::Aes128>::decrypt_padded_mut` with PKCS#7 padding. The plain
/// text is a function of key, vector and data, and shorter than the data. None means
/// malformed padding, or a length that is not a multiple of the block size.
#[verifier::external_body]
pub(crate) fn aes128_cbc_decrypt(key: &[u8], iv: &[u8; 16], data: &[u8]) -> (r: Option<Vec<u8>>)
    requires
        key@.len() == 16,
    ensures
        match r {
            Some(p) => aes128_cbc_plain(key@, iv@, data@) == Some(p@),
            None => aes128_cbc_plain(key@, iv@, data@) is None,
        },
        r is Some ==> r->0@.len() < data@.len() && data@.len() % 16 == 0,
{
    let mut buf = data.to_vec();
    let dec = cbc::Decryptor::<aes::Aes128>::new(key.into(), iv.into());
    match dec.decrypt_padded_mut::<aes::cipher::block_padding::Pkcs7>(&mut buf) {
        Ok(plain) => Some(plain.to_vec()),
        Err(_) => None,
    }
}

/// `base64`'s standard engine, `decode`. The bytes, or the message of the error, are a
/// function of the text; which one is left to the crate.
#[verifier::external_body]
pub(crate) fn base64_decode(text: &str) -> (r: Result<Vec<u8>, String>)
    ensures
        match r {
            Ok(b) => base64_bytes(text@) == Ok::<Seq<u8>, Seq<char>>(b@),
            Err(e) => base64_bytes(text@) == Err::<Seq<u8>, Seq<char>>(e@),
        },
{
    match base64::engine::general_purpose::STANDARD.decode(text) {
        Ok(b) => Ok(b),
        Err(e) => Err(e.to_string()),
    }
}

/// `base64`'s standard engine, `encode`. The text is a function of the bytes, decoding
/// it gives them back, and its alphabet holds visible ASCII characters only.
#[verifier::external_body]
pub(crate) fn base64_encode(data: &Vec<u8>) -> (r: String)
    requires
        data@.len() <= usize::MAX / 4,
    ensures
        r@ == base64_text(data@),
        match base64_bytes(r@) {
            Ok(b) => b == data@,
            Err(_) => false,
        },
        forall|i: int| 0 <= i < r@.len() ==> 33 <= (#[trigger] r@[i]) as u32 <= 126,
{
    base64::engine::general_purpose::STANDARD.encode(data)
}

/// `getrandom::fill` on a buffer of `n` bytes. Every call may give other bytes; only
/// their number is known. An error, with its message, means that the system has no
/// random source.
#[verifier::external_body]
pub(crate) fn random_bytes(n: usize) -> (r: Result<Vec<u8>, String>)
    requires
        n <= 65_536,
    ensures
        r is Ok ==> r->Ok_0@.len() == n,
{
    let mut buf = vec![0u8; n];
    match getrandom::fill(&mut buf) {
        Ok(_) => Ok(buf),
        Err(e) => Err(e.to_string()),
    }
}

/// `std::str::from_utf8`: the text if the bytes are valid UTF-8, else nothing.
#[verifier::external_body]
pub(crate) fn utf8_text(data: &Vec<u8>) -> (r: Option<String>)
    ensures
        match r {
            Some(s) => vstd::utf8::valid_utf8(data@) && s@ == vstd::utf8::decode_utf8(data@),
            None => !vstd::utf8::valid_utf8(data@),
        },
{
    match std::str::from_utf8(data) {
        Ok(s) => Some(s.to_string()),
        Err(_) => None,
    }
}

} // verus!
