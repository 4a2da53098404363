//! Tests of the encryption primitives and TOTP codes.

use lprs::cipher::{base32_decode, decrypt, derive_master_key, encrypt, totp_at, TotpHash};
use lprs::errors::Error;

#[test]
fn encrypt_decrypt_round_trip() {
    let key = [7u8; 32];
    for data in [
        b"".to_vec(),
        b"a".to_vec(),
        b"hello world".to_vec(),
        vec![0u8; 16],
        vec![42u8; 47],
        (0u8..=255).collect::<Vec<u8>>(),
    ] {
        let blob = encrypt(&key, &data);
        assert!(blob.len() >= 16);
        let back = decrypt(&key, &blob).expect("decrypting what encrypt returned");
        assert_eq!(back, data);
    }
}

#[test]
fn fresh_iv_every_call() {
    let key = [1u8; 32];
    let a = encrypt(&key, b"same message");
    let b = encrypt(&key, b"same message");
    // Same shape, fresh IV: the bytes differ with overwhelming probability.
    assert_eq!(a.len(), b.len());
    assert_ne!(a, b);
}

#[test]
fn decrypt_too_short_fails() {
    let key = [0u8; 32];
    assert_eq!(decrypt(&key, b""), Err(Error::Decryption));
    assert_eq!(decrypt(&key, &[1, 2, 3]), Err(Error::Decryption));
    assert_eq!(decrypt(&key, &[0u8; 15]), Err(Error::Decryption));
}

#[test]
fn tamper_detection() {
    let key = [9u8; 32];
    let data = b"attack at dawn".to_vec();
    let blob = encrypt(&key, &data);
    // Flip a byte inside the final ciphertext block: decryption must never
    // return the original data; the padding check catches it with
    // overwhelming probability and reports the generic decryption error.
    let mut tampered = blob.clone();
    let last_ct = blob.len() - 17;
    tampered[last_ct] ^= 0x01;
    match decrypt(&key, &tampered) {
        Err(e) => assert_eq!(e, Error::Decryption),
        Ok(p) => assert_ne!(p, data),
    }
}

#[test]
fn wrong_key_rejected() {
    let key_a = [3u8; 32];
    let key_b = [4u8; 32];
    let data = b"the cake is a lie".to_vec();
    let blob = encrypt(&key_a, &data);
    match decrypt(&key_b, &blob) {
        Err(e) => assert_eq!(e, Error::Decryption),
        Ok(p) => assert_ne!(p, data),
    }
}

#[test]
fn master_key_is_sha256_of_password() {
    // SHA-256("hello"), a published test value.
    let expected: [u8; 32] = [
        0x2c, 0xf2, 0x4d, 0xba, 0x5f, 0xb0, 0xa3, 0x0e, 0x26, 0xe8, 0x3b, 0x2a, 0xc5, 0xb9,
        0xe2, 0x9e, 0x1b, 0x16, 0x1e, 0x5c, 0x1f, 0xa7, 0x42, 0x5e, 0x73, 0x04, 0x33, 0x62,
        0x93, 0x8b, 0x98, 0x24,
    ];
    assert_eq!(derive_master_key("hello"), expected);
}

#[test]
fn base32_decode_accepts_rfc_vectors() {
    assert_eq!(base32_decode("MZXW6YTBOI======").unwrap(), b"foobar".to_vec());
    assert_eq!(base32_decode("MY======").unwrap(), b"f".to_vec());
    assert_eq!(base32_decode("").unwrap(), b"".to_vec());
}

#[test]
fn base32_decode_rejects_malformed() {
    let err = base32_decode("not base32 at all!").unwrap_err();
    assert!(matches!(err, Error::Base32(_)));
}

#[test]
fn totp_known_answer() {
    // The seed is the base32 form of "12345678901234567890"; at Unix time
    // 59 the six-digit SHA-1 code is 287082 (the published eight-digit
    // value 94287082, reduced to six digits).
    let seed = "GEZDGNBVGY3TQOJQGEZDGNBVGY3TQOJQ";
    let (code, remaining) = totp_at(seed, &TotpHash::Sha1, 59).unwrap();
    assert_eq!(code, "287082");
    assert_eq!(remaining, 1);
}

#[test]
fn totp_same_window_same_code() {
    let seed = "MZXW6YTBOI======";
    let (c1, r1) = totp_at(seed, &TotpHash::Sha256, 90).unwrap();
    let (c2, r2) = totp_at(seed, &TotpHash::Sha256, 119).unwrap();
    assert_eq!(c1, c2);
    assert!(r1 >= r2);
    assert_eq!(r1, 30);
    assert_eq!(r2, 1);
    // The next window gives a different code (for this seed and times).
    let (c3, r3) = totp_at(seed, &TotpHash::Sha256, 120).unwrap();
    assert_eq!(r3, 30);
    assert_ne!(c1, c3);
}

#[test]
fn totp_code_is_six_digits() {
    let seed = "MZXW6YTBOI======";
    for h in [TotpHash::Sha1, TotpHash::Sha256, TotpHash::Sha512] {
        let (code, _) = totp_at(seed, &h, 1_000_000).unwrap();
        assert_eq!(code.len(), 6);
        assert!(code.chars().all(|c| c.is_ascii_digit()));
    }
}

#[test]
fn totp_rejects_bad_seed() {
    let err = totp_at("!!!", &TotpHash::Sha1, 0).unwrap_err();
    assert!(matches!(err, Error::Base32(_)));
}
