//! Encrypting memory content at rest: AES-256-GCM under a key derived from a
//! passphrase with PBKDF2-HMAC-SHA256, written as hex of salt, nonce and ciphertext.

use vstd::prelude::*;
use vstd::utf8::{encode_utf8, decode_utf8, valid_utf8};
use aes_gcm::aead::{Aead, KeyInit};
use rand::RngCore;

verus! {

/// Iterations of PBKDF2.
pub const PBKDF2_ITERATIONS: u32 = 100_000;

/// Bytes of salt.
pub const SALT_LEN: usize = 16;

/// Bytes of nonce.
pub const NONCE_LEN: usize = 12;

/// The largest plaintext, in bytes, that AES-GCM seals.
pub open spec fn seal_limit() -> nat {
    0x10_0000_0000
}

/// The 32-byte key that PBKDF2-HMAC-SHA256 derives from a password and a salt in
/// 100 000 rounds.
pub uninterp spec fn pbkdf2_key(password: Seq<u8>, salt: Seq<u8>) -> Seq<u8>;

/// What AES-256-GCM sealing gives for a key, a nonce and a plaintext (no associated data).
pub uninterp spec fn gcm_sealed(key: Seq<u8>, nonce: Seq<u8>, plaintext: Seq<u8>) -> Seq<u8>;

/// What AES-256-GCM opening gives for a key, a nonce and a ciphertext: the plaintext,
/// or `None` when the tag does not match.
pub uninterp spec fn gcm_opened(key: Seq<u8>, nonce: Seq<u8>, ciphertext: Seq<u8>) -> Option<Seq<u8>>;

/// The lower-case hexadecimal digit for `n < 16`.
pub open spec fn hex_digit(n: nat) -> char {
    if n < 10 {
        (('0' as u32) + n) as char
    } else {
        (('a' as u32) + n - 10) as char
    }
}

/// Bytes written as lower-case hexadecimal, two digits each (`hex::encode`).
pub open spec fn hex_of(b: Seq<u8>) -> Seq<char>
    decreases b.len(),
{
    if b.len() == 0 {
        seq![]
    } else {
        hex_of(b.drop_last()) + seq![hex_digit((b.last() / 16) as nat), hex_digit((b.last() % 16) as nat)]
    }
}

/// The value of a hexadecimal digit in either case.
pub open spec fn hex_value(c: char) -> Option<nat> {
    if '0' <= c && c <= '9' {
        Some((c as u32 - '0' as u32) as nat)
    } else if 'a' <= c && c <= 'f' {
        Some((c as u32 - 'a' as u32 + 10) as nat)
    } else if 'A' <= c && c <= 'F' {
        Some((c as u32 - 'A' as u32 + 10) as nat)
    } else {
        None
    }
}

/// The bytes that hexadecimal text stands for (`hex::decode`): `None` for an odd
/// number of characters or any character that is no hexadecimal digit.
pub open spec fn hex_bytes(s: Seq<char>) -> Option<Seq<u8>>
    decreases s.len(),
{
    if s.len() % 2 != 0 {
        None
    } else if s.len() == 0 {
        Some(seq![])
    } else {
        match (hex_bytes(s.drop_last().drop_last()), hex_value(s[s.len() - 2]), hex_value(s[s.len() - 1])) {
            (Some(b), Some(h), Some(l)) => Some(b.push((h * 16 + l) as u8)),
            _ => None,
        }
    }
}

/// Reading hexadecimal back gives the bytes that were written.
pub proof fn law_hex_round_trip(b: Seq<u8>)
    ensures
        hex_bytes(hex_of(b)) == Some(b),
        hex_of(b).len() == 2 * b.len(),
    decreases b.len(),
{
    if b.len() > 0 {
        let d = b.drop_last();
        law_hex_round_trip(d);
        let x = b.last();
        let s = hex_of(b);
        assert(s.drop_last().drop_last() =~= hex_of(d));
        let h = (x / 16) as nat;
        let l = (x % 16) as nat;
        assert(hex_value(hex_digit(h)) == Some(h));
        assert(hex_value(hex_digit(l)) == Some(l));
        assert(s[s.len() - 2] == hex_digit(h));
        assert(s[s.len() - 1] == hex_digit(l));
        assert((h * 16 + l) as u8 == x);
        assert(d.push(x) =~= b);
    }
}

/// `hex::FromHexError`, the reason hexadecimal text was refused.
#[verifier::external_type_specification]
#[verifier::external_body]
pub struct ExFromHexError(hex::FromHexError);

/// `hex::encode`: the bytes as lower-case hexadecimal, two digits per byte.
#[verifier::external_body]
fn hex_encode(b: &[u8]) -> (s: String)
    ensures
        s@ == hex_of(b@),
{
    hex::encode(b)
}

/// `hex::decode`: the bytes of hexadecimal text in either case; refused for an odd
/// length or a character that is no hexadecimal digit.
#[verifier::external_body]
fn hex_decode(s: &str) -> (r: Result<Vec<u8>, hex::FromHexError>)
    ensures
        match r {
            Ok(v) => hex_bytes(s@) == Some(v@),
            Err(_) => hex_bytes(s@) is None,
        },
{
    hex::decode(s)
}

/// `pbkdf2::pbkdf2_hmac::<Sha256>` with 100 000 rounds into a 32-byte buffer. The key
/// is named `pbkdf2_key` of the password's bytes and the salt.
#[verifier::external_body]
fn derive_key(password: &[u8], salt: &[u8]) -> (k: Vec<u8>)
    ensures
        k@ == pbkdf2_key(password@, salt@),
        k@.len() == 32,
{
    let mut key = [0u8; 32];
    pbkdf2::pbkdf2_hmac::<sha2::Sha256>(password, salt, PBKDF2_ITERATIONS, &mut key);
    key.to_vec()
}

/// `Aes256Gcm::encrypt` with a 32-byte key and a 12-byte nonce. The ciphertext is
/// named `gcm_sealed`; as for any AEAD, opening it under the same key and nonce gives
/// the plaintext back. It is as long as the plaintext plus the 16-byte tag that the
/// crate appends. The crate refuses plaintexts over 2^36 bytes, which are left out here.
#[verifier::external_body]
fn gcm_seal(key: &[u8], nonce: &[u8], plaintext: &[u8]) -> (c: Vec<u8>)
    requires
        key@.len() == 32,
        nonce@.len() == 12,
        plaintext@.len() <= seal_limit(),
    ensures
        c@ == gcm_sealed(key@, nonce@, plaintext@),
        c@.len() == plaintext@.len() + 16,
        gcm_opened(key@, nonce@, c@) == Some(plaintext@),
{
    let cipher = aes_gcm::Aes256Gcm::new(aes_gcm::Key::<aes_gcm::Aes256Gcm>::from_slice(key));
    cipher.encrypt(aes_gcm::Nonce::from_slice(nonce), plaintext).unwrap()
}

/// `Aes256Gcm::decrypt` with a 32-byte key and a 12-byte nonce: the plaintext, or
/// `None` when the tag does not match (or the ciphertext is too long). The outcome is
/// named `gcm_opened`.
#[verifier::external_body]
fn gcm_open(key: &[u8], nonce: &[u8], ciphertext: &[u8]) -> (p: Option<Vec<u8>>)
    requires
        key@.len() == 32,
        nonce@.len() == 12,
    ensures
        match p {
            Some(v) => gcm_opened(key@, nonce@, ciphertext@) == Some(v@),
            None => gcm_opened(key@, nonce@, ciphertext@) is None,
        },
{
    let cipher = aes_gcm::Aes256Gcm::new(aes_gcm::Key::<aes_gcm::Aes256Gcm>::from_slice(key));
    match cipher.decrypt(aes_gcm::Nonce::from_slice(nonce), ciphertext) {
        Ok(v) => Some(v),
        Err(_) => None,
    }
}

/// `n` bytes from `rand::rngs::OsRng::fill_bytes`, the operating system's random
/// source. Only the length is stated. (The source panics when the system gives no
/// randomness.)
#[verifier::external_body]
fn random_bytes(n: usize) -> (v: Vec<u8>)
    ensures
        v@.len() == n,
{
    let mut v = vec![0u8; n];
    rand::rngs::OsRng.fill_bytes(&mut v);
    v
}

/// `String::from_utf8`: the text that the bytes encode, when they are valid UTF-8.
#[verifier::external_body]
fn utf8_text(bytes: Vec<u8>) -> (r: Option<String>)
    ensures
        match r {
            Some(s) => valid_utf8(bytes@) && s@ == decode_utf8(bytes@),
            None => !valid_utf8(bytes@),
        },
{
    match String::from_utf8(bytes) {
        Ok(s) => Some(s),
        Err(_) => None,
    }
}

/// Why encrypted content could not be read.
#[derive(Debug)]
pub enum DecryptError {
    /// The content is not hexadecimal.
    InvalidHex(hex::FromHexError),
    /// Fewer bytes than a salt and a nonce.
    Truncated,
    /// The tag does not match: a wrong key or changed data.
    Failed,
    /// The decrypted bytes are not UTF-8 text.
    NotText,
}

impl DecryptError {
    /// The message that explains the failure.
    pub fn message(&self) -> (m: String)
        ensures
            self is Truncated ==> m@ == "encrypted content is truncated"@,
            self is Failed ==> m@ == "decryption failed: wrong key or corrupted data"@,
            self is NotText ==> m@ == "invalid utf-8 in decrypted content"@,
            self is InvalidHex ==> m@ == "invalid encrypted content"@,
    {
        match self {
            DecryptError::InvalidHex(_) => "invalid encrypted content".to_owned(),
            DecryptError::Truncated => "encrypted content is truncated".to_owned(),
            DecryptError::Failed => "decryption failed: wrong key or corrupted data".to_owned(),
            DecryptError::NotText => "invalid utf-8 in decrypted content".to_owned(),
        }
    }
}

/// The encrypted form of `content` under `key` with the given salt and nonce:
/// hexadecimal of salt, nonce and AES-GCM ciphertext.
pub open spec fn sealed_text(content: Seq<char>, key: Seq<char>, salt: Seq<u8>, nonce: Seq<u8>) -> Seq<char> {
    hex_of(salt + nonce + gcm_sealed(pbkdf2_key(encode_utf8(key), salt), nonce, encode_utf8(content)))
}

/// What reading encrypted text under `key` gives.
pub open spec fn opened_text(encoded: Seq<char>, key: Seq<char>) -> Result<Seq<char>, ()> {
    match hex_bytes(encoded) {
        None => Err(()),
        Some(b) => if b.len() < 28 {
            Err(())
        } else {
            match gcm_opened(pbkdf2_key(encode_utf8(key), b.take(16)), b.subrange(16, 28), b.skip(28)) {
                None => Err(()),
                Some(p) => if valid_utf8(p) { Ok(decode_utf8(p)) } else { Err(()) },
            }
        },
    }
}

/// Encrypts `content` under `key` with a given 16-byte salt and 12-byte nonce; an empty
/// key leaves the content as it is.
pub fn encrypt_with(content: &str, key: &str, salt: &[u8], nonce: &[u8]) -> (r: String)
    requires
        salt@.len() == 16,
        nonce@.len() == 12,
        encode_utf8(content@).len() <= seal_limit(),
    ensures
        key@.len() == 0 ==> r@ == content@,
        key@.len() > 0 ==> r@ == sealed_text(content@, key@, salt@, nonce@),
        key@.len() > 0 ==> r@.len() == 2 * (44 + encode_utf8(content@).len()),
        key@.len() > 0 ==> opened_text(r@, key@) == Ok::<Seq<char>, ()>(content@),
{
    if key.as_bytes().len() == 0 {
        return content.to_owned();
    }
    let derived = derive_key(key.as_bytes(), salt);
    let ciphertext = gcm_seal(derived.as_slice(), nonce, content.as_bytes());
    let mut out: Vec<u8> = Vec::new();
    let mut i: usize = 0;
    while i < salt.len()
        invariant
            i <= salt.len(),
            out@ == salt@.take(i as int),
        decreases salt.len() - i,
    {
        out.push(salt[i]);
        assert(salt@.take(i + 1) =~= salt@.take(i as int).push(salt@[i as int]));
        i = i + 1;
    }
    assert(salt@.take(salt.len() as int) =~= salt@);
    let mut j: usize = 0;
    while j < nonce.len()
        invariant
            j <= nonce.len(),
            out@ == salt@ + nonce@.take(j as int),
        decreases nonce.len() - j,
    {
        out.push(nonce[j]);
        assert(nonce@.take(j + 1) =~= nonce@.take(j as int).push(nonce@[j as int]));
        assert(salt@ + nonce@.take(j + 1) =~= (salt@ + nonce@.take(j as int)).push(nonce@[j as int]));
        j = j + 1;
    }
    assert(nonce@.take(nonce.len() as int) =~= nonce@);
    let ghost head = out@;
    let mut k: usize = 0;
    while k < ciphertext.len()
        invariant
            k <= ciphertext.len(),
            out@ == head + ciphertext@.take(k as int),
        decreases ciphertext.len() - k,
    {
        out.push(ciphertext[k]);
        assert(ciphertext@.take(k + 1) =~= ciphertext@.take(k as int).push(ciphertext@[k as int]));
        assert(head + ciphertext@.take(k + 1) =~= (head + ciphertext@.take(k as int)).push(ciphertext@[k as int]));
        k = k + 1;
    }
    assert(ciphertext@.take(ciphertext.len() as int) =~= ciphertext@);
    proof {
        law_open_after_seal(content@, key@, salt@, nonce@);
        law_hex_round_trip(out@);
    }
    hex_encode(out.as_slice())
}

/// Encrypts `content` under `key` with a fresh random salt and nonce; an empty key
/// leaves the content as it is.
pub fn encrypt(content: &str, key: &str) -> (r: String)
    requires
        encode_utf8(content@).len() <= seal_limit(),
    ensures
        key@.len() == 0 ==> r@ == content@,
        key@.len() > 0 ==> exists|salt: Seq<u8>, nonce: Seq<u8>|
            #![trigger sealed_text(content@, key@, salt, nonce)]
            salt.len() == 16 && nonce.len() == 12 && r@ == sealed_text(content@, key@, salt, nonce),
        key@.len() > 0 ==> r@.len() == 2 * (44 + encode_utf8(content@).len()),
        key@.len() > 0 ==> opened_text(r@, key@) == Ok::<Seq<char>, ()>(content@),
{
    let salt = random_bytes(SALT_LEN);
    let nonce = random_bytes(NONCE_LEN);
    let r = encrypt_with(content, key, salt.as_slice(), nonce.as_slice());
    assert(key@.len() > 0 ==> r@ == sealed_text(content@, key@, salt@, nonce@));
    r
}

/// Reads encrypted content under `key`: hexadecimal of a 16-byte salt, a 12-byte
/// nonce and the ciphertext. An empty key gives the text back as it is.
pub fn decrypt(encoded: &str, key: &str) -> (r: Result<String, DecryptError>)
    ensures
        key@.len() == 0 ==> (r matches Ok(s) && s@ == encoded@),
        key@.len() > 0 ==> match r {
            Ok(s) => opened_text(encoded@, key@) == Ok::<Seq<char>, ()>(s@),
            Err(e) => opened_text(encoded@, key@) is Err
                && (e is InvalidHex <==> hex_bytes(encoded@) is None)
                && (e is Truncated <==> (hex_bytes(encoded@) is Some && hex_bytes(encoded@)->0.len() < 28)),
        },
{
    if key.as_bytes().len() == 0 {
        return Ok(encoded.to_owned());
    }
    let bytes = match hex_decode(encoded) {
        Ok(b) => b,
        Err(e) => {
            return Err(DecryptError::InvalidHex(e));
        },
    };
    if bytes.len() < 28 {
        return Err(DecryptError::Truncated);
    }
    let salt = crate::encryption::slice_bytes(&bytes, 0, 16);
    let nonce = crate::encryption::slice_bytes(&bytes, 16, 28);
    let body = crate::encryption::slice_bytes(&bytes, 28, bytes.len());
    assert(body@ =~= bytes@.skip(28));
    assert(salt@ =~= bytes@.take(16));
    let derived = derive_key(key.as_bytes(), salt.as_slice());
    match gcm_open(derived.as_slice(), nonce.as_slice(), body.as_slice()) {
        None => Err(DecryptError::Failed),
        Some(p) => match utf8_text(p) {
            Some(s) => Ok(s),
            None => Err(DecryptError::NotText),
        },
    }
}

/// A copy of `v[a..b]`.
fn slice_bytes(v: &Vec<u8>, a: usize, b: usize) -> (r: Vec<u8>)
    requires
        a <= b <= v.len(),
    ensures
        r@ == v@.subrange(a as int, b as int),
{
    let mut r: Vec<u8> = Vec::new();
    let mut i = a;
    while i < b
        invariant
            a <= i <= b <= v.len(),
            r@ == v@.subrange(a as int, i as int),
        decreases b - i,
    {
        r.push(v[i]);
        assert(v@.subrange(a as int, i as int).push(v@[i as int]) =~= v@.subrange(a as int, i + 1));
        i = i + 1;
    }
    r
}

/// Sealed content, once opened under the same key, salt and nonce, reads as the content.
pub proof fn law_open_after_seal(content: Seq<char>, key: Seq<char>, salt: Seq<u8>, nonce: Seq<u8>)
    requires
        salt.len() == 16,
        nonce.len() == 12,
        encode_utf8(content).len() <= seal_limit(),
        key.len() > 0,
        gcm_opened(
            pbkdf2_key(encode_utf8(key), salt),
            nonce,
            gcm_sealed(pbkdf2_key(encode_utf8(key), salt), nonce, encode_utf8(content)),
        ) == Some(encode_utf8(content)),
    ensures
        opened_text(sealed_text(content, key, salt, nonce), key) == Ok::<Seq<char>, ()>(content),
{
    let k = pbkdf2_key(encode_utf8(key), salt);
    let c = gcm_sealed(k, nonce, encode_utf8(content));
    let b = salt + nonce + c;
    law_hex_round_trip(b);
    assert(b.take(16) =~= salt);
    assert(b.subrange(16, 28) =~= nonce);
    assert(b.skip(28) =~= c);
    vstd::utf8::encode_utf8_valid_utf8(content);
    vstd::utf8::encode_utf8_decode_utf8(content);
}

// ---------------------------------------------------------------------------
// Encrypted memory content
// ---------------------------------------------------------------------------

/// The marker that starts encrypted memory content.
pub open spec fn sealed_marker() -> Seq<char> {
    "ENC:"@
}

/// Whether memory content is encrypted: it starts with the marker.
pub open spec fn is_sealed(content: Seq<char>) -> bool {
    crate::text::has_prefix(content, sealed_marker())
}

/// Encrypts memory content under `key`, marked as encrypted; `None` when it is
/// encrypted already. With an empty key the text follows the marker as it is.
pub fn seal_content(content: &str, key: &str) -> (r: Option<String>)
    requires
        encode_utf8(content@).len() <= seal_limit(),
    ensures
        is_sealed(content@) <==> r is None,
        r matches Some(s) ==> {
            &&& is_sealed(s@)
            &&& key@.len() == 0 ==> s@ == sealed_marker() + content@
            &&& key@.len() > 0 ==> opened_text(s@.skip(4), key@) == Ok::<Seq<char>, ()>(content@)
        },
{
    proof {
        reveal_strlit("ENC:");
    }
    if crate::text::str_starts_with(content, "ENC:") {
        return None;
    }
    let sealed = encrypt(content, key);
    let mut s = "ENC:".to_owned();
    crate::text::append_str(&mut s, sealed.as_str());
    assert(s@.skip(4) =~= sealed@);
    assert(s@.take(4) =~= sealed_marker());
    Some(s)
}

/// Decrypts encrypted memory content under `key`; `None` when it is not encrypted.
pub fn open_content(content: &str, key: &str) -> (r: Option<Result<String, DecryptError>>)
    ensures
        !is_sealed(content@) <==> r is None,
        r matches Some(o) ==> {
            let rest = content@.skip(4);
            &&& key@.len() == 0 ==> (o matches Ok(s) && s@ == rest)
            &&& key@.len() > 0 ==> match o {
                Ok(s) => opened_text(rest, key@) == Ok::<Seq<char>, ()>(s@),
                Err(e) => opened_text(rest, key@) is Err,
            }
        },
{
    proof {
        reveal_strlit("ENC:");
    }
    if !crate::text::str_starts_with(content, "ENC:") {
        return None;
    }
    let cs = crate::text::chars_of(content);
    let rest = crate::text::string_of(crate::text::slice_vec(cs.as_slice(), 4, cs.len()).as_slice());
    assert(rest@ =~= content@.skip(4));
    Some(decrypt(rest.as_str(), key))
}

} // verus!
