//! The calls into hash, random, certificate and text-encoding libraries.
//!
//! What stands here without a proof is believed: each such item names the function that it
//! stands for and says what is claimed of it.

use vstd::prelude::*;
use vstd::utf8::*;

verus! {

/// The 32 bytes of the BLAKE3 hash of `input`.
pub uninterp spec fn blake3_hash(input: Seq<u8>) -> Seq<u8>;

/// The 32 bytes of the keyed BLAKE3 hash of `input` under `key`.
pub uninterp spec fn blake3_keyed_hash(key: Seq<u8>, input: Seq<u8>) -> Seq<u8>;

/// The 32 bytes that BLAKE3's key derivation makes of `material` in the context `context`.
pub uninterp spec fn blake3_derive_key(context: Seq<char>, material: Seq<u8>) -> Seq<u8>;

/// The 32 bytes of the SHA-256 digest of `input`.
pub uninterp spec fn sha256_digest(input: Seq<u8>) -> Seq<u8>;

/// The text that stands for bytes that are not UTF-8, with replacement characters.
pub uninterp spec fn lossy_text(bytes: Seq<u8>) -> Seq<char>;

/// `blake3::hash`: a function of the input alone.
#[verifier::external_body]
pub(crate) fn hash(input: &[u8]) -> (h: [u8; 32])
    ensures
        h@ == blake3_hash(input@),
{
    *blake3::hash(input).as_bytes()
}

/// `blake3::keyed_hash`: a function of the key and the input.
#[verifier::external_body]
pub(crate) fn keyed_hash(key: &[u8; 32], input: &[u8]) -> (h: [u8; 32])
    ensures
        h@ == blake3_keyed_hash(key@, input@),
{
    *blake3::keyed_hash(key, input).as_bytes()
}

/// `blake3::derive_key`: a function of the context and the key material.
#[verifier::external_body]
pub(crate) fn derive_key(context: &str, material: &[u8]) -> (k: [u8; 32])
    ensures
        k@ == blake3_derive_key(context@, material@),
{
    blake3::derive_key(context, material)
}

/// `sha2::Sha256::digest`: a function of the input alone.
#[verifier::external_body]
pub(crate) fn sha256(input: &[u8]) -> (d: [u8; 32])
    ensures
        d@ == sha256_digest(input@),
{
    <sha2::Sha256 as sha2::Digest>::digest(input).into()
}

/// `getrandom::fill`: either fills the whole buffer or reports that no random bytes could be
/// had, here `None`. Nothing is said of which bytes come, nor of when the system fails.
#[verifier::external_body]
pub(crate) fn random_bytes(len: usize) -> (r: Option<Vec<u8>>)
    requires
        len <= isize::MAX,
    ensures
        r matches Some(v) ==> v@.len() == len,
{
    let mut v = vec![0u8; len];
    match getrandom::fill(&mut v) {
        Ok(()) => Some(v),
        Err(_) => None,
    }
}

/// Whether the system's random source, asked for `len` bytes, may answer `drawn`.
pub closed spec fn may_draw(len: usize, drawn: Option<Vec<u8>>) -> bool {
    call_ensures(random_bytes, (len,), drawn)
}

/// Random bytes from the system, or nothing if it has none.
pub(crate) fn draw(len: usize) -> (r: Option<Vec<u8>>)
    requires
        len <= isize::MAX,
    ensures
        may_draw(len, r),
        r matches Some(v) ==> v@.len() == len,
{
    random_bytes(len)
}

/// `String::from_utf8_lossy`: UTF-8 comes out as the characters that it encodes; anything
/// else as a text that depends on the bytes alone.
#[verifier::external_body]
pub(crate) fn from_utf8_lossy(bytes: &[u8]) -> (s: String)
    ensures
        valid_utf8(bytes@) ==> s@ == decode_utf8(bytes@),
        !valid_utf8(bytes@) ==> s@ == lossy_text(bytes@),
{
    String::from_utf8_lossy(bytes).into_owned()
}

/// Whether every character of `s` is ASCII.
pub open spec fn ascii(s: Seq<char>) -> bool {
    forall|i: int| 0 <= i < s.len() ==> (#[trigger] s[i] as u32) < 128
}

/// `rcgen::generate_simple_self_signed`: a new key pair and a certificate for `name` signed
/// with it, both in DER form, the key in PKCS #8; or the text of the failure. The key is
/// random, so nothing is said of the bytes. A name that is not ASCII is refused; nothing is
/// said of when it fails otherwise.
#[verifier::external_body]
pub(crate) fn self_signed(name: &str) -> (r: core::result::Result<(Vec<u8>, Vec<u8>), String>)
    ensures
        r is Ok ==> ascii(name@),
{
    match rcgen::generate_simple_self_signed(vec![name.to_owned()]) {
        Ok(made) => Ok((made.cert.der().to_vec(), made.signing_key.serialize_der())),
        Err(e) => Err(e.to_string()),
    }
}

/// `String::push` appends one character.
pub assume_specification[ String::push ](s: &mut String, c: char)
    ensures
        final(s)@ == old(s)@.push(c),
;

/// The character that stands for the six bits `v` in the standard base64 alphabet.
pub open spec fn base64_char(v: int) -> char {
    if v < 26 {
        (65 + v) as char
    } else if v < 52 {
        (97 + v - 26) as char
    } else if v < 62 {
        (48 + v - 52) as char
    } else if v == 62 {
        '+'
    } else {
        '/'
    }
}

/// `data` in standard base64 with padding: four characters for every three bytes, the last
/// group filled up with `=`.
pub open spec fn base64_text(data: Seq<u8>) -> Seq<char>
    decreases data.len(),
{
    if data.len() == 0 {
        Seq::empty()
    } else if data.len() == 1 {
        let w = data[0] * 16;
        seq![base64_char(w / 64), base64_char(w % 64), '=', '=']
    } else if data.len() == 2 {
        let w = (data[0] * 256 + data[1]) * 4;
        seq![base64_char(w / 4096), base64_char(w / 64 % 64), base64_char(w % 64), '=']
    } else {
        let w = data[0] * 65536 + data[1] * 256 + data[2];
        seq![
            base64_char(w / 262144),
            base64_char(w / 4096 % 64),
            base64_char(w / 64 % 64),
            base64_char(w % 64),
        ] + base64_text(data.skip(3))
    }
}

/// `base64`'s `STANDARD` engine, `encode`: standard base64 with padding. The text must be
/// no longer than an allocation can be, as the function panics beyond that.
#[verifier::external_body]
pub(crate) fn base64_encode(data: &[u8]) -> (s: String)
    requires
        data@.len() / 3 * 4 + 4 <= isize::MAX,
    ensures
        s@ == base64_text(data@),
{
    base64::Engine::encode(&base64::engine::general_purpose::STANDARD, data)
}

} // verus!
