//! Symmetric encryption primitives and TOTP code generation.
//!
//! Encryption is AES-256 in CBC mode with PKCS#7 padding; every call draws
//! a fresh random 16-byte initialization vector and appends it as the
//! trailing 16 bytes of the ciphertext.

use vstd::prelude::*;

use aes::cipher::block_padding::Pkcs7;
use aes::cipher::{BlockDecryptMut, BlockEncryptMut, KeyIvInit};
use base64::Engine;
use sha2::Digest;
use vstd::string::StringSliceAdditionalSpecFns;

use crate::errors::Error;

verus! {

/// The TOTP hash functions.
#[derive(Clone, Copy, Debug, PartialEq, Eq, Structural)]
pub enum TotpHash {
    /// Sha1 hash function.
    Sha1,
    /// Sha256 hash function.
    Sha256,
    /// Sha512 hash function.
    Sha512,
}

impl Default for TotpHash {
    /// Sha1 is the default hash function.
    fn default() -> (r: Self)
        ensures
            r == TotpHash::Sha1,
    {
        TotpHash::Sha1
    }
}

/// What AES-256-CBC encryption with PKCS#7 padding returns for a key, an
/// initialization vector and a message.
pub uninterp spec fn cbc_encrypt_of(key: Seq<u8>, iv: Seq<u8>, data: Seq<u8>) -> Seq<u8>;

/// What AES-256-CBC decryption with PKCS#7 unpadding returns for a key, an
/// initialization vector and a ciphertext: `None` when the ciphertext is
/// not a whole number of blocks or the padding check fails.
pub uninterp spec fn cbc_decrypt_of(key: Seq<u8>, iv: Seq<u8>, data: Seq<u8>) -> Option<Seq<u8>>;

/// Relies on `cbc::Encryptor<aes::Aes256>` (AES-256-CBC, PKCS#7): the
/// ciphertext depends only on key, IV and message; PKCS#7 pads the
/// message to the next whole block, always adding at least one byte; and
/// decrypting the result with the same key and IV returns the message.
#[verifier::external_body]
fn aes256_cbc_encrypt(key: &[u8; 32], iv: &[u8; 16], data: &[u8]) -> (r: Vec<u8>)
    ensures
        r@ == cbc_encrypt_of(key@, iv@, data@),
        r@.len() == (data@.len() / 16 + 1) * 16,
        cbc_decrypt_of(key@, iv@, r@) == Some(data@),
{
    cbc::Encryptor::<aes::Aes256>::new(key.into(), iv.into())
        .encrypt_padded_vec_mut::<Pkcs7>(data)
}

/// Relies on `cbc::Decryptor<aes::Aes256>` (AES-256-CBC, PKCS#7): returns
/// the unpadded plaintext, or fails when the input is not a whole number
/// of blocks or the padding check fails.
#[verifier::external_body]
fn aes256_cbc_decrypt(key: &[u8; 32], iv: &[u8; 16], data: &[u8]) -> (r: Result<Vec<u8>, ()>)
    ensures
        match r {
            Ok(p) => cbc_decrypt_of(key@, iv@, data@) == Some(p@),
            Err(()) => cbc_decrypt_of(key@, iv@, data@) is None,
        },
{
    cbc::Decryptor::<aes::Aes256>::new(key.into(), iv.into())
        .decrypt_padded_vec_mut::<Pkcs7>(data)
        .map_err(|_| ())
}

/// Relies on `rand::random`: a fresh 16-byte value from the thread RNG.
/// Nothing can be promised of its value.
#[verifier::external_body]
fn random_iv() -> [u8; 16] {
    rand::random::<[u8; 16]>()
}

/// What the SHA-256 digest of a byte string is.
pub uninterp spec fn sha256_of(data: Seq<u8>) -> Seq<u8>;

/// Relies on `sha2::Sha256`: the 32-byte digest depends on the input alone.
#[verifier::external_body]
fn sha256_digest(data: &[u8]) -> (r: [u8; 32])
    ensures
        r@ == sha256_of(data@),
{
    sha2::Sha256::digest(data).into()
}

/// What base32 decoding (RFC 4648 alphabet, with padding) returns:
/// `None` on a malformed input.
pub uninterp spec fn base32_decode_of(s: Seq<char>) -> Option<Seq<u8>>;

/// Relies on `base32::decode` with the RFC 4648 alphabet (with padding):
/// the result depends on the input string alone.
#[verifier::external_body]
fn base32_decode_rfc4648(s: &str) -> (r: Option<Vec<u8>>)
    ensures
        match r {
            Some(b) => base32_decode_of(s@) == Some(b@),
            None => base32_decode_of(s@) is None,
        },
{
    base32::decode(base32::Alphabet::RFC4648 { padding: true }, s)
}

/// What base64 encoding with the standard alphabet returns.
pub uninterp spec fn base64_of(data: Seq<u8>) -> Seq<char>;

/// What base64 decoding with the standard alphabet returns: `None` on a
/// malformed input.
pub uninterp spec fn base64_decode_of(s: Seq<char>) -> Option<Seq<u8>>;

/// Relies on base64's `STANDARD` engine: the encoding depends on the bytes
/// alone, and decoding it returns them.
#[verifier::external_body]
pub fn base64_encode(data: &[u8]) -> (r: String)
    ensures
        r@ == base64_of(data@),
        base64_decode_of(r@) == Some(data@),
{
    base64::engine::general_purpose::STANDARD.encode(data)
}

/// Relies on base64's `STANDARD` engine: decoding depends on the string
/// alone, and fails exactly on malformed input.
#[verifier::external_body]
pub fn base64_decode(s: &str) -> (r: Result<Vec<u8>, ()>)
    ensures
        match r {
            Ok(b) => base64_decode_of(s@) == Some(b@),
            Err(()) => base64_decode_of(s@) is None,
        },
{
    base64::engine::general_purpose::STANDARD.decode(s).map_err(|_| ())
}

/// Derive the 32-byte master key from the master password, as the SHA-256
/// digest of its bytes.
pub fn derive_master_key(master_password: &str) -> (r: [u8; 32])
    ensures
        r@ == sha256_of(master_password.spec_bytes()),
{
    sha256_digest(master_password.as_bytes())
}

/// What decrypting a stored blob under a key yields: the last 16 bytes are
/// the initialization vector, the rest is the ciphertext. `None` when the
/// blob is too short or the padding check fails.
pub open spec fn spec_decrypt(key: Seq<u8>, blob: Seq<u8>) -> Option<Seq<u8>> {
    if blob.len() < 16 {
        None
    } else {
        cbc_decrypt_of(
            key,
            blob.subrange(blob.len() - 16, blob.len() as int),
            blob.subrange(0, blob.len() - 16),
        )
    }
}

/// Encrypt the given data by the given key using AES-256-CBC with a fresh
/// random IV, appended as the last 16 bytes of the result. Decrypting the
/// result under the same key returns the data; the blob is the padded
/// ciphertext plus the 16 IV bytes.
pub fn encrypt(master_password: &[u8; 32], data: &[u8]) -> (r: Vec<u8>)
    ensures
        spec_decrypt(master_password@, r@) == Some(data@),
        r@.len() == (data@.len() / 16 + 1) * 16 + 16,
{
    let iv = random_iv();
    let ghost iv_view = iv@;
    let mut out = aes256_cbc_encrypt(master_password, &iv, data);
    let ghost ct_view = out@;
    let mut i: usize = 0;
    while i < 16
        invariant
            0 <= i <= 16,
            iv@ == iv_view,
            out@ == ct_view + iv_view.subrange(0, i as int),
        decreases 16 - i,
    {
        out.push(iv[i]);
        proof {
            assert(out@ == ct_view + iv_view.subrange(0, i + 1 as int));
        }
        i = i + 1;
    }
    proof {
        assert(iv_view.subrange(0, 16) =~= iv_view);
        assert(out@ =~= ct_view + iv_view);
        assert(out@.len() >= 16);
        assert(out@.subrange(out@.len() - 16, out@.len() as int) =~= iv_view);
        assert(out@.subrange(0, out@.len() - 16) =~= ct_view);
    }
    out
}

/// Decrypt data encrypted by [`encrypt`] under the given key. The IV is
/// taken from the last 16 bytes. Fails with a generic decryption error
/// when the input is too short or the padding check fails, leaking nothing
/// about which of the two happened.
pub fn decrypt(master_password: &[u8; 32], data: &[u8]) -> (r: Result<Vec<u8>, Error>)
    ensures
        match r {
            Ok(p) => spec_decrypt(master_password@, data@) == Some(p@),
            Err(e) => spec_decrypt(master_password@, data@) is None && e == Error::Decryption,
        },
{
    if data.len() < 16 {
        return Err(Error::Decryption);
    }
    let (ciphertext, iv_slice) = data.split_at(data.len() - 16);
    let mut iv = [0u8; 16];
    let mut i: usize = 0;
    while i < 16
        invariant
            0 <= i <= 16,
            iv_slice@.len() == 16,
            iv_slice@ == data@.subrange(data@.len() - 16, data@.len() as int),
            ciphertext@ == data@.subrange(0, data@.len() - 16),
            forall|j: int| 0 <= j < i ==> iv@[j] == iv_slice@[j],
        decreases 16 - i,
    {
        iv = iv_update(iv, i, iv_slice[i]);
        i = i + 1;
    }
    proof {
        assert(iv@ =~= iv_slice@);
    }
    match aes256_cbc_decrypt(master_password, &iv, ciphertext) {
        Ok(p) => Ok(p),
        Err(()) => Err(Error::Decryption),
    }
}

/// Base32-decode a TOTP seed.
pub fn base32_decode(base32_string: &str) -> (r: Result<Vec<u8>, Error>)
    ensures
        match r {
            Ok(b) => base32_decode_of(base32_string@) == Some(b@),
            Err(e) => base32_decode_of(base32_string@) is None && e is Base32,
        },
{
    match base32_decode_rfc4648(base32_string) {
        Some(b) => Ok(b),
        None => Err(Error::Base32("Invalid base32 string".to_owned())),
    }
}

/// What the six-digit, 30-second-step TOTP code over SHA-1 is for a secret
/// and a window counter (the Unix time divided by 30).
pub uninterp spec fn totp_sha1_of(secret: Seq<u8>, counter: u64) -> Seq<char>;

/// What the six-digit, 30-second-step TOTP code over SHA-256 is for a
/// secret and a window counter (the Unix time divided by 30).
pub uninterp spec fn totp_sha256_of(secret: Seq<u8>, counter: u64) -> Seq<char>;

/// What the six-digit, 30-second-step TOTP code over SHA-512 is for a
/// secret and a window counter (the Unix time divided by 30).
pub uninterp spec fn totp_sha512_of(secret: Seq<u8>, counter: u64) -> Seq<char>;

/// Relies on `totp_lite::totp_custom::<Sha1>` with a 30-second step and six
/// digits: the zero-padded decimal code depends only on the secret and on
/// `time / 30`.
#[verifier::external_body]
fn totp_sha1(secret: &[u8], time: u64) -> (r: String)
    ensures
        r@ == totp_sha1_of(secret@, time / 30),
        r@.len() == 6,
        forall|i: int| 0 <= i < r@.len() ==> '0' <= r@[i] && r@[i] <= '9',
{
    totp_lite::totp_custom::<totp_lite::Sha1>(30, 6, secret, time)
}

/// Relies on `totp_lite::totp_custom::<Sha256>` with a 30-second step and
/// six digits: the zero-padded decimal code depends only on the secret and
/// on `time / 30`.
#[verifier::external_body]
fn totp_sha256(secret: &[u8], time: u64) -> (r: String)
    ensures
        r@ == totp_sha256_of(secret@, time / 30),
        r@.len() == 6,
        forall|i: int| 0 <= i < r@.len() ==> '0' <= r@[i] && r@[i] <= '9',
{
    totp_lite::totp_custom::<totp_lite::Sha256>(30, 6, secret, time)
}

/// Relies on `totp_lite::totp_custom::<Sha512>` with a 30-second step and
/// six digits: the zero-padded decimal code depends only on the secret and
/// on `time / 30`.
#[verifier::external_body]
fn totp_sha512(secret: &[u8], time: u64) -> (r: String)
    ensures
        r@ == totp_sha512_of(secret@, time / 30),
        r@.len() == 6,
        forall|i: int| 0 <= i < r@.len() ==> '0' <= r@[i] && r@[i] <= '9',
{
    totp_lite::totp_custom::<totp_lite::Sha512>(30, 6, secret, time)
}

/// Relies on `std::time::SystemTime::now`: the seconds since the Unix
/// epoch, or zero on a clock set before it. Nothing can be promised of the
/// value.
#[verifier::external_body]
fn unix_now() -> u64 {
    match std::time::SystemTime::now().duration_since(std::time::UNIX_EPOCH) {
        Ok(d) => d.as_secs(),
        Err(_) => 0,
    }
}

/// The TOTP code for the chosen hash function, a decoded secret and a
/// window counter.
pub open spec fn spec_totp_code(h: TotpHash, secret: Seq<u8>, counter: u64) -> Seq<char> {
    match h {
        TotpHash::Sha1 => totp_sha1_of(secret, counter),
        TotpHash::Sha256 => totp_sha256_of(secret, counter),
        TotpHash::Sha512 => totp_sha512_of(secret, counter),
    }
}

/// Create the TOTP code for the given Unix time, with the seconds that
/// remain of the code's 30-second window. The code is a function of the
/// seed, the hash choice and the window `now / 30` alone.
pub fn totp_at(secret_base32: &str, hash_function: &TotpHash, now: u64) -> (r: Result<
    (String, u8),
    Error,
>)
    ensures
        match r {
            Ok(out) => {
                &&& base32_decode_of(secret_base32@) matches Some(secret)
                &&& out.0@ == spec_totp_code(*hash_function, secret, now / 30)
                &&& out.0@.len() == 6
                &&& forall|i: int| 0 <= i < out.0@.len() ==> '0' <= out.0@[i] && out.0@[i] <= '9'
                &&& out.1 == 30 - now % 30
            },
            Err(e) => base32_decode_of(secret_base32@) is None && e is Base32,
        },
{
    let secret = base32_decode(secret_base32)?;
    let code = match hash_function {
        TotpHash::Sha1 => totp_sha1(secret.as_slice(), now),
        TotpHash::Sha256 => totp_sha256(secret.as_slice(), now),
        TotpHash::Sha512 => totp_sha512(secret.as_slice(), now),
    };
    let remaining: u8 = (30 - now % 30) as u8;
    Ok((code, remaining))
}

/// Create the TOTP code of the current time with its remaining time in
/// seconds. Fails exactly when the seed is not valid base32.
pub fn totp_now(secret_base32: &str, hash_function: &TotpHash) -> (r: Result<(String, u8), Error>)
    ensures
        match r {
            Ok(out) => {
                &&& base32_decode_of(secret_base32@) is Some
                &&& out.0@.len() == 6
                &&& forall|i: int| 0 <= i < out.0@.len() ==> '0' <= out.0@[i] && out.0@[i] <= '9'
                &&& 1 <= out.1 <= 30
            },
            Err(e) => base32_decode_of(secret_base32@) is None && e is Base32,
        },
{
    let now = unix_now();
    totp_at(secret_base32, hash_function, now)
}

/// Two TOTP codes computed within the same 30-second window are equal, and
/// the seconds remaining of the window never grow while it lasts.
pub proof fn lemma_totp_same_window(h: TotpHash, secret: Seq<u8>, t1: u64, t2: u64)
    requires
        t1 <= t2,
        t1 / 30 == t2 / 30,
    ensures
        spec_totp_code(h, secret, t1 / 30) == spec_totp_code(h, secret, t2 / 30),
        30 - t1 % 30 >= 30 - t2 % 30,
{
    assert(t1 % 30 <= t2 % 30) by (nonlinear_arith)
        requires
            t1 <= t2,
            t1 / 30 == t2 / 30,
    ;
}

/// Write one byte of an IV being assembled, returning the updated array.
fn iv_update(iv: [u8; 16], i: usize, b: u8) -> (r: [u8; 16])
    requires
        i < 16,
    ensures
        r@ == iv@.update(i as int, b),
{
    let mut r = iv;
    r[i] = b;
    r
}

} // verus!
