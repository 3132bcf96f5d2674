//! Keeping a node's secret key under a password.
//!
//! The secret key text is encrypted with ChaCha20-Poly1305 under a key
//! derived from the password by PBKDF2-HMAC-SHA512 over a random salt, with a
//! random nonce. The stored digest is, in base64: the public key text, the
//! salt, the nonce, the ciphertext and the authentication tag.
use vstd::prelude::*;
use vstd::string::StringSliceAdditionalSpecFns;
use vstd::utf8::{decode_utf8, encode_utf8, valid_utf8};

verus! {

/// Iterations of the password derivation.
pub const PASSWORD_DERIVATION_ITERATIONS: u32 = 20000;
/// Bytes of the secret key text.
pub const SK_SIZE: usize = 69;
/// Bytes of the public key text.
pub const PK_SIZE: usize = 69;
/// Bytes of the salt.
pub const SALT_SIZE: usize = 16;
/// Bytes of the nonce.
pub const NONCE_SIZE: usize = 12;
/// Bytes of the authentication tag.
pub const TAG_SIZE: usize = 16;
/// Bytes of the derived key.
pub const KEY_SIZE: usize = 32;

/// The key PBKDF2-HMAC-SHA512 derives from `password` and `salt` in
/// `iterations` rounds.
pub uninterp spec fn spec_pbkdf2_sha512(password: Seq<u8>, salt: Seq<u8>, iterations: u32) -> Seq<u8>;

/// The ciphertext and tag ChaCha20-Poly1305 makes of `plaintext` under `key`
/// and `nonce`, with no additional data.
pub uninterp spec fn spec_seal(key: Seq<u8>, nonce: Seq<u8>, plaintext: Seq<u8>) -> (Seq<u8>, Seq<u8>);

/// What ChaCha20-Poly1305 makes of `ciphertext` with `tag` under `key` and
/// `nonce`: the plaintext when the tag matches.
pub uninterp spec fn spec_open(key: Seq<u8>, nonce: Seq<u8>, ciphertext: Seq<u8>, tag: Seq<u8>) -> Option<Seq<u8>>;

/// The base64 text of `bytes`.
pub uninterp spec fn spec_base64_encode(bytes: Seq<u8>) -> Seq<char>;

/// The bytes of a base64 text, when it is one.
pub uninterp spec fn spec_base64_decode(text: Seq<char>) -> Option<Seq<u8>>;

/// Sixteen random bytes (`getrandom`); it panics
/// where the system offers no randomness. Nothing is claimed of the bytes.
#[verifier::external_body]
fn generate_salt() -> (r: [u8; 16]) {
    let mut buf = [0u8; 16];
    getrandom::getrandom(&mut buf).expect("random bytes for a salt");
    buf
}

/// Twelve random bytes (`getrandom`); it panics where the system offers no
/// randomness. Nothing is claimed of the bytes.
#[verifier::external_body]
fn generate_nonce() -> (r: [u8; 12]) {
    let mut buf = [0u8; 12];
    getrandom::getrandom(&mut buf).expect("random bytes for a nonce");
    buf
}

/// `cryptoxide::pbkdf2::pbkdf2::<Sha512>`: the 32-byte key derived from
/// `password` and `salt`, named as a function of the three arguments.
#[verifier::external_body]
fn password_to_key(password: &[u8], salt: &[u8; 16], iterations: u32) -> (r: [u8; 32])
    requires
        iterations > 0,
    ensures
        r@ == spec_pbkdf2_sha512(password@, salt@, iterations),
{
    let mut key = [0u8; 32];
    cryptoxide::pbkdf2::pbkdf2::<cryptoxide::hashing::sha2::Sha512>(password, salt, iterations, &mut key);
    key
}

/// `ChaCha20Poly1305::new(key, nonce, &[]).encrypt(..)`: the ciphertext, as
/// long as the plaintext, and the 16-byte tag, named as a function of the
/// arguments; opening them under the same key and nonce gives the plaintext
/// back (the crate's documented round trip).
#[verifier::external_body]
fn seal(key: &[u8; 32], nonce: &[u8; 12], plaintext: &[u8]) -> (r: (Vec<u8>, [u8; 16]))
    ensures
        (r.0@, r.1@) == spec_seal(key@, nonce@, plaintext@),
        r.0@.len() == plaintext@.len(),
        spec_open(key@, nonce@, r.0@, r.1@) == Some(plaintext@),
{
    let mut out = vec![0u8; plaintext.len()];
    let mut tag = [0u8; 16];
    let mut cipher = cryptoxide::chacha20poly1305::ChaCha20Poly1305::new(key, nonce, &[]);
    cipher.encrypt(plaintext, &mut out, &mut tag);
    (out, tag)
}

/// `ChaCha20Poly1305::new(key, nonce, &[]).decrypt(..)`: the plaintext when
/// the tag matches, as the named function says; it is as long as the
/// ciphertext.
#[verifier::external_body]
fn open(key: &[u8; 32], nonce: &[u8; 12], ciphertext: &[u8], tag: &[u8]) -> (r: Option<Vec<u8>>)
    requires
        tag@.len() == TAG_SIZE,
    ensures
        match r {
            Some(v) => spec_open(key@, nonce@, ciphertext@, tag@) == Some(v@) && v@.len()
                == ciphertext@.len(),
            None => spec_open(key@, nonce@, ciphertext@, tag@) is None,
        },
{
    let mut out = vec![0u8; ciphertext.len()];
    let mut cipher = cryptoxide::chacha20poly1305::ChaCha20Poly1305::new(key, nonce, &[]);
    if cipher.decrypt(ciphertext, &mut out, tag) {
        Some(out)
    } else {
        None
    }
}

/// `base64::encode`: the base64 text of `bytes`, named; decoding it gives
/// the bytes back.
#[verifier::external_body]
fn base64_encode(bytes: &[u8]) -> (r: String)
    ensures
        r@ == spec_base64_encode(bytes@),
        spec_base64_decode(r@) == Some(bytes@),
{
    base64::encode(bytes)
}

/// `base64::decode`: the bytes of a base64 text, or none when it is not one.
#[verifier::external_body]
fn base64_decode(text: &str) -> (r: Option<Vec<u8>>)
    ensures
        match r {
            Some(v) => spec_base64_decode(text@) == Some(v@),
            None => spec_base64_decode(text@) is None,
        },
{
    base64::decode(text).ok()
}

/// `String::from_utf8`: the text of `bytes` when they are valid UTF-8.
#[verifier::external_body]
fn string_from_utf8(bytes: Vec<u8>) -> (r: Option<String>)
    ensures
        r is Some <==> valid_utf8(bytes@),
        r matches Some(s) ==> s@ == decode_utf8(bytes@),
{
    String::from_utf8(bytes).ok()
}

/// The digest that stores the secret key text `clear` of the public key
/// text `pk` under `password`, before base64: the public key text, the salt,
/// the nonce, the ciphertext and the tag.
pub open spec fn spec_identity_digest(
    password: Seq<u8>,
    pk: Seq<u8>,
    clear: Seq<u8>,
    salt: Seq<u8>,
    nonce: Seq<u8>,
) -> Seq<u8> {
    let sealed = spec_seal(spec_pbkdf2_sha512(password, salt, PASSWORD_DERIVATION_ITERATIONS), nonce, clear);
    pk + salt + nonce + sealed.0 + sealed.1
}

/// The parts of a decoded digest `d`: public key text, salt, nonce,
/// ciphertext and tag.
pub open spec fn digest_parts(d: Seq<u8>) -> (Seq<u8>, Seq<u8>, Seq<u8>, Seq<u8>, Seq<u8>) {
    let len = d.len() - 113;
    (
        d.subrange(0, 69),
        d.subrange(69, 85),
        d.subrange(85, 97),
        d.subrange(97, 97 + len),
        d.subrange(97 + len, d.len() as int),
    )
}

/// What is in the digest text `digest` under `password`: the secret key text
/// and the public key text, as bytes, when the tag matches.
pub open spec fn spec_decrypt_identity(password: Seq<u8>, digest: Seq<char>) -> Option<(Seq<u8>, Seq<u8>)> {
    match spec_base64_decode(digest) {
        None => None,
        Some(d) => {
            let (pk, salt, nonce, ct, tag) = digest_parts(d);
            match spec_open(spec_pbkdf2_sha512(password, salt, PASSWORD_DERIVATION_ITERATIONS), nonce, ct, tag) {
                None => None,
                Some(clear) => Some((clear.subrange(0, 69), pk)),
            }
        },
    }
}

/// Whether `decrypt_identity` can read the digest text without failing: it
/// is base64 of at least 113 bytes, and when the tag matches the secret key
/// text is at least 69 bytes and both texts are UTF-8.
pub open spec fn identity_readable(password: Seq<u8>, digest: Seq<char>) -> bool {
    match spec_base64_decode(digest) {
        None => false,
        Some(d) => d.len() >= 113 && {
            let (pk, salt, nonce, ct, tag) = digest_parts(d);
            match spec_open(spec_pbkdf2_sha512(password, salt, PASSWORD_DERIVATION_ITERATIONS), nonce, ct, tag) {
                None => true,
                Some(clear) => clear.len() >= 69 && valid_utf8(clear.subrange(0, 69)) && valid_utf8(pk),
            }
        },
    }
}

/// Copies sixteen bytes of `d` from `start` on.
fn read16(d: &Vec<u8>, start: usize) -> (r: [u8; 16])
    requires
        start + 16 <= d@.len(),
    ensures
        r@ == d@.subrange(start as int, start + 16),
{
    let mut r = [0u8; 16];
    let mut i: usize = 0;
    while i < 16
        invariant
            i <= 16,
            start + 16 <= d.len(),
            forall|j: int| 0 <= j < i ==> r@[j] == d@[start + j],
        decreases 16 - i,
    {
        r[i] = d[start + i];
        i = i + 1;
    }
    assert(r@ =~= d@.subrange(start as int, start + 16));
    r
}

/// Copies twelve bytes of `d` from `start` on.
fn read12(d: &Vec<u8>, start: usize) -> (r: [u8; 12])
    requires
        start + 12 <= d@.len(),
    ensures
        r@ == d@.subrange(start as int, start + 12),
{
    let mut r = [0u8; 12];
    let mut i: usize = 0;
    while i < 12
        invariant
            i <= 12,
            start + 12 <= d.len(),
            forall|j: int| 0 <= j < i ==> r@[j] == d@[start + j],
        decreases 12 - i,
    {
        r[i] = d[start + i];
        i = i + 1;
    }
    assert(r@ =~= d@.subrange(start as int, start + 12));
    r
}

/// Copies the bytes of `d` from `start` to `end`.
fn copy_range(d: &Vec<u8>, start: usize, end: usize) -> (r: Vec<u8>)
    requires
        start <= end <= d@.len(),
    ensures
        r@ == d@.subrange(start as int, end as int),
{
    let mut r: Vec<u8> = Vec::new();
    let mut i: usize = start;
    while i < end
        invariant
            start <= i <= end <= d@.len(),
            r@ == d@.subrange(start as int, i as int),
        decreases end - i,
    {
        r.push(d[i]);
        i = i + 1;
        assert(r@ =~= d@.subrange(start as int, i as int));
    }
    r
}

/// Stores the secret key text `cleartext` of the public key text `pk` under
/// `password`: base64 of the public key text, a fresh random salt and
/// nonce, the ciphertext and the tag. Reading the result back under the same
/// password gives both texts back.
pub fn encrypt_identity(password: String, pk: String, cleartext: &String) -> (r: String)
    requires
        encode_utf8(cleartext@).len() == SK_SIZE,
    ensures
        exists|salt: Seq<u8>, nonce: Seq<u8>| salt.len() == SALT_SIZE && nonce.len() == NONCE_SIZE && r@
            == spec_base64_encode(
            spec_identity_digest(encode_utf8(password@), encode_utf8(pk@), encode_utf8(cleartext@), salt, nonce),
        ),
        encode_utf8(pk@).len() == PK_SIZE ==> spec_decrypt_identity(encode_utf8(password@), r@) == Some(
            (encode_utf8(cleartext@), encode_utf8(pk@)),
        ) && identity_readable(encode_utf8(password@), r@),
{
    let salt = generate_salt();
    let nonce = generate_nonce();
    let key = password_to_key(password.as_str().as_bytes(), &salt, PASSWORD_DERIVATION_ITERATIONS);
    let clear = cleartext.as_str().as_bytes();
    let (mut ciphertext, tag) = seal(&key, &nonce, clear);
    let mut digest: Vec<u8> = Vec::new();
    digest.extend_from_slice(pk.as_str().as_bytes());
    digest.extend_from_slice(&salt);
    digest.extend_from_slice(&nonce);
    digest.append(&mut ciphertext);
    digest.extend_from_slice(&tag);
    let ghost pw = encode_utf8(password@);
    let ghost pkb = encode_utf8(pk@);
    let ghost cl = encode_utf8(cleartext@);
    assert(digest@ =~= spec_identity_digest(pw, pkb, cl, salt@, nonce@));
    let r = base64_encode(digest.as_slice());
    proof {
        if pkb.len() == PK_SIZE {
            let d = digest@;
            assert(d.len() == 69 + 16 + 12 + 69 + 16);
            let sealed = spec_seal(key@, nonce@, cl);
            assert(digest_parts(d).0 =~= pkb);
            assert(digest_parts(d).1 =~= salt@);
            assert(digest_parts(d).2 =~= nonce@);
            assert(digest_parts(d).3 =~= sealed.0);
            assert(digest_parts(d).4 =~= sealed.1);
            assert(cl.subrange(0, 69) =~= cl);
            vstd::utf8::encode_utf8_valid_utf8(cleartext@);
            vstd::utf8::encode_utf8_valid_utf8(pk@);
        }
    }
    r
}

/// Reads the secret key text and the public key text back from the digest
/// text `digest` under `password`; none when the tag does not match (a wrong
/// password or a damaged digest).
pub fn decrypt_identity(password: String, digest: String) -> (r: Option<(String, String)>)
    requires
        identity_readable(encode_utf8(password@), digest@),
    ensures
        match spec_decrypt_identity(encode_utf8(password@), digest@) {
            None => r is None,
            Some((sk, pk)) => r matches Some((s, p)) && s@ == decode_utf8(sk) && p@ == decode_utf8(pk),
        },
{
    let d = base64_decode(digest.as_str()).unwrap();
    let len = d.len() - TAG_SIZE - SALT_SIZE - NONCE_SIZE - PK_SIZE;
    let pk = copy_range(&d, 0, PK_SIZE);
    let salt = read16(&d, PK_SIZE);
    let nonce = read12(&d, PK_SIZE + SALT_SIZE);
    let key = password_to_key(password.as_str().as_bytes(), &salt, PASSWORD_DERIVATION_ITERATIONS);
    let start = PK_SIZE + SALT_SIZE + NONCE_SIZE;
    let ciphertext = copy_range(&d, start, start + len);
    let tag = copy_range(&d, start + len, d.len());
    match open(&key, &nonce, ciphertext.as_slice(), tag.as_slice()) {
        Some(clear) => {
            let sk = copy_range(&clear, 0, SK_SIZE);
            let sk_text = string_from_utf8(sk).unwrap();
            let pk_text = string_from_utf8(pk).unwrap();
            Some((sk_text, pk_text))
        },
        None => None,
    }
}

/// Why a digest text could not be read.
#[derive(Clone, Copy, Debug, PartialEq, Eq, Structural)]
pub enum IdentityError {
    /// The digest text is not base64 of a digest, or what it holds is not
    /// text.
    Malformed,
}

/// Reads a digest text as `decrypt_identity` does, first checking that it
/// can be read: an error where it cannot (where `decrypt_identity` would
/// fail).
pub fn read_identity(password: String, digest: String) -> (r: Result<Option<(String, String)>, IdentityError>)
    ensures
        !identity_readable(encode_utf8(password@), digest@) <==> r == Err::<Option<(String, String)>, IdentityError>(
            IdentityError::Malformed,
        ),
        identity_readable(encode_utf8(password@), digest@) ==> match spec_decrypt_identity(
            encode_utf8(password@),
            digest@,
        ) {
            None => r == Ok::<Option<(String, String)>, IdentityError>(None),
            Some((sk, pk)) => r matches Ok(Some((s, p))) && s@ == decode_utf8(sk) && p@ == decode_utf8(pk),
        },
{
    let d = match base64_decode(digest.as_str()) {
        Some(d) => d,
        None => return Err(IdentityError::Malformed),
    };
    if d.len() < 113 {
        return Err(IdentityError::Malformed);
    }
    let len = d.len() - 113;
    let pk = copy_range(&d, 0, PK_SIZE);
    let salt = read16(&d, PK_SIZE);
    let nonce = read12(&d, PK_SIZE + SALT_SIZE);
    let key = password_to_key(password.as_str().as_bytes(), &salt, PASSWORD_DERIVATION_ITERATIONS);
    let ciphertext = copy_range(&d, 97, 97 + len);
    let tag = copy_range(&d, 97 + len, d.len());
    match open(&key, &nonce, ciphertext.as_slice(), tag.as_slice()) {
        None => Ok(decrypt_identity(password, digest)),
        Some(clear) => {
            if clear.len() < SK_SIZE {
                return Err(IdentityError::Malformed);
            }
            let sk = copy_range(&clear, 0, SK_SIZE);
            if string_from_utf8(sk).is_none() || string_from_utf8(pk).is_none() {
                return Err(IdentityError::Malformed);
            }
            Ok(decrypt_identity(password, digest))
        },
    }
}

} // verus!
