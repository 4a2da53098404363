//! Tests of the record model: field-level encryption, edits, custom-field
//! merges, and display.

use lprs::cipher::TotpHash;
use lprs::errors::Error;
use lprs::vault::{apply_custom_fields, find_custom_field, Vault};

fn sample_vault() -> Vault {
    Vault {
        name: "github".to_string(),
        username: Some("bob".to_string()),
        password: Some("hunter2".to_string()),
        service: Some("https://github.com".to_string()),
        note: Some("work account\nsecond line".to_string()),
        totp_secret: Some("MZXW6YTBOI======".to_string()),
        totp_hash: TotpHash::Sha1,
        custom_fields: vec![
            ("env".to_string(), "prod".to_string()),
            ("team".to_string(), "infra".to_string()),
        ],
    }
}

fn assert_vaults_equal(a: &Vault, b: &Vault) {
    assert_eq!(a.name, b.name);
    assert_eq!(a.username, b.username);
    assert_eq!(a.password, b.password);
    assert_eq!(a.service, b.service);
    assert_eq!(a.note, b.note);
    assert_eq!(a.totp_secret, b.totp_secret);
    assert_eq!(a.totp_hash, b.totp_hash);
    assert_eq!(a.custom_fields, b.custom_fields);
}

#[test]
fn record_round_trip() {
    let key = [5u8; 32];
    let vault = sample_vault();
    let encrypted = vault.encrypt(&key);
    let back = Vault::decrypt(&encrypted, &key).expect("same key decrypts");
    assert_vaults_equal(&vault, &back);
}

#[test]
fn record_round_trip_minimal() {
    let key = [0u8; 32];
    let vault = Vault::new(
        "only a name".to_string(),
        None,
        None,
        None,
        None,
        Vec::new(),
        None,
        TotpHash::Sha512,
    );
    let encrypted = vault.encrypt(&key);
    assert!(encrypted.username.is_none());
    assert!(encrypted.password.is_none());
    let back = Vault::decrypt(&encrypted, &key).expect("same key decrypts");
    assert_vaults_equal(&vault, &back);
}

#[test]
fn record_round_trip_unicode() {
    let key = [13u8; 32];
    let vault = Vault {
        name: "pässwörd 🌍".to_string(),
        username: Some("ユーザー".to_string()),
        password: Some("môt-de-passe".to_string()),
        service: None,
        note: Some("ноте".to_string()),
        totp_secret: None,
        totp_hash: TotpHash::Sha1,
        custom_fields: vec![("ключ".to_string(), "värde".to_string())],
    };
    let back = Vault::decrypt(&vault.encrypt(&key), &key).unwrap();
    assert_vaults_equal(&vault, &back);
    let portable = vault.encrypt_portable(&key);
    let back = Vault::decrypt_portable(&portable, &key).unwrap();
    assert_vaults_equal(&vault, &back);
}

#[test]
fn record_wrong_key_never_silently_matches() {
    let key_a = [1u8; 32];
    let key_b = [2u8; 32];
    let vault = sample_vault();
    let encrypted = vault.encrypt(&key_a);
    match Vault::decrypt(&encrypted, &key_b) {
        Err(e) => assert_eq!(e, Error::Decryption),
        Ok(v) => assert_ne!(v.name, vault.name),
    }
}

#[test]
fn record_encrypt_keeps_shape() {
    let key = [8u8; 32];
    let vault = sample_vault();
    let encrypted = vault.encrypt(&key);
    assert!(encrypted.username.is_some());
    assert!(encrypted.password.is_some());
    assert!(encrypted.service.is_some());
    assert!(encrypted.note.is_some());
    assert!(encrypted.totp_secret.is_some());
    assert_eq!(encrypted.totp_hash, TotpHash::Sha1);
    assert_eq!(encrypted.custom_fields.len(), 2);
}

#[test]
fn is_empty_checks_every_field() {
    let mut v = Vault::new(
        "x".to_string(),
        None,
        None,
        None,
        None,
        Vec::new(),
        None,
        TotpHash::Sha1,
    );
    assert!(v.is_empty());
    v.username = Some("u".to_string());
    assert!(!v.is_empty());
    v.username = None;
    v.custom_fields.push(("k".to_string(), "v".to_string()));
    assert!(!v.is_empty());
    v.custom_fields.clear();
    assert!(v.is_empty());
    // A record holding only a TOTP seed is not empty.
    v.totp_secret = Some("MZXW6YTBOI======".to_string());
    assert!(!v.is_empty());
}

#[test]
fn list_name_formats() {
    let mut v = sample_vault();
    assert_eq!(v.list_name(), "github <bob> (https://github.com)");
    v.username = None;
    v.service = None;
    v.password = None;
    assert_eq!(v.list_name(), "github *Note");
    v.note = None;
    assert_eq!(v.list_name(), "github");
}

#[test]
fn display_text_lists_fields() {
    let v = Vault {
        name: "a".to_string(),
        username: Some("u".to_string()),
        password: None,
        service: None,
        note: Some("n".to_string()),
        totp_secret: None,
        totp_hash: TotpHash::Sha1,
        custom_fields: vec![("k".to_string(), "v".to_string())],
    };
    assert_eq!(v.display_text(), "Name: a\nUsername: u\nNote:\nn\nk: v");
}

#[test]
fn edit_partial_is_noop_for_other_fields() {
    let mut v = sample_vault();
    let before = v.clone();
    v.apply_edit(
        None,
        Some("alice".to_string()),
        None,
        None,
        None,
        None,
        Vec::new(),
    )
    .unwrap();
    assert_eq!(v.username.as_deref(), Some("alice"));
    assert_eq!(v.name, before.name);
    assert_eq!(v.password, before.password);
    assert_eq!(v.service, before.service);
    assert_eq!(v.note, before.note);
    assert_eq!(v.totp_secret, before.totp_secret);
    assert_eq!(v.totp_hash, before.totp_hash);
    assert_eq!(v.custom_fields, before.custom_fields);
}

#[test]
fn edit_empty_string_deletes() {
    let mut v = sample_vault();
    v.apply_edit(
        None,
        Some(String::new()),
        None,
        None,
        None,
        None,
        Vec::new(),
    )
    .unwrap();
    assert!(v.username.is_none());
    // Editing the now-absent field to the empty string again is a no-op.
    v.apply_edit(
        None,
        Some(String::new()),
        None,
        None,
        None,
        None,
        Vec::new(),
    )
    .unwrap();
    assert!(v.username.is_none());
}

#[test]
fn edit_rejects_bad_totp_seed_and_changes_nothing() {
    let mut v = sample_vault();
    let before = v.clone();
    let err = v
        .apply_edit(
            Some("renamed".to_string()),
            None,
            None,
            None,
            None,
            Some("not base32!".to_string()),
            Vec::new(),
        )
        .unwrap_err();
    assert!(matches!(err, Error::Base32(_)));
    assert_vaults_equal(&v, &before);
}

#[test]
fn edit_empty_totp_seed_deletes_it() {
    let mut v = sample_vault();
    v.apply_edit(None, None, None, None, None, Some(String::new()), Vec::new())
        .unwrap();
    assert!(v.totp_secret.is_none());
}

#[test]
fn custom_field_merge() {
    let mut fields = vec![
        ("a".to_string(), "1".to_string()),
        ("b".to_string(), "2".to_string()),
    ];
    apply_custom_fields(
        &mut fields,
        vec![
            ("b".to_string(), "20".to_string()),
            ("c".to_string(), "3".to_string()),
            ("a".to_string(), String::new()),
        ],
    );
    assert_eq!(
        fields,
        vec![
            ("b".to_string(), "20".to_string()),
            ("c".to_string(), "3".to_string()),
        ]
    );
}

#[test]
fn custom_field_empty_value_on_absent_key_is_noop() {
    let mut fields = vec![("a".to_string(), "1".to_string())];
    apply_custom_fields(&mut fields, vec![("ghost".to_string(), String::new())]);
    assert_eq!(fields, vec![("a".to_string(), "1".to_string())]);
}

#[test]
fn find_custom_field_first_match() {
    let fields = vec![
        ("a".to_string(), "1".to_string()),
        ("b".to_string(), "2".to_string()),
    ];
    assert_eq!(find_custom_field(&fields, "b"), Some(1));
    assert_eq!(find_custom_field(&fields, "zzz"), None);
}

#[test]
fn inject_totp_code_adds_reserved_field() {
    let mut v = sample_vault();
    v.inject_totp_code("123456", Some(12));
    let at = find_custom_field(&v.custom_fields, ".lprsfield.TOTP Code").unwrap();
    assert_eq!(v.custom_fields[at].1, "123456 (12s remaining)");
    // Without the remaining seconds the bare code is injected.
    v.inject_totp_code("654321", None);
    let at = find_custom_field(&v.custom_fields, ".lprsfield.TOTP Code").unwrap();
    assert_eq!(v.custom_fields[at].1, "654321");
}

#[test]
fn portable_round_trip() {
    let key = [6u8; 32];
    let vault = sample_vault();
    let portable = vault.encrypt_portable(&key);
    // Every field of the portable form is base64 text, not the plaintext.
    assert_ne!(portable.name, vault.name);
    let back = Vault::decrypt_portable(&portable, &key).expect("same key imports");
    assert_vaults_equal(&vault, &back);
}
