//! Tests of the store: the save/load cycle, lookup, bulk operations, and
//! the import/export paths.

use lprs::cipher::TotpHash;
use lprs::errors::{Error, SelectorKind};
use lprs::store::{
    parse_selector, resolve_selectors, vault_by_index_or_name, Selector, Vaults,
};
use lprs::vault::{Format, Vault};

fn named(name: &str) -> Vault {
    Vault::new(
        name.to_string(),
        Some(format!("{name}-user")),
        Some("pw".to_string()),
        None,
        None,
        Vec::new(),
        None,
        TotpHash::Sha1,
    )
}

fn store_with(names: &[&str], key: [u8; 32]) -> Vaults {
    let mut store = Vaults::new(key, "vaults.lprs".to_string(), Vec::new());
    for n in names {
        store.add_vault(named(n));
    }
    store
}

#[test]
fn save_and_reload_round_trip() {
    let key = [11u8; 32];
    let mut store = store_with(&[], key);
    store.add_vault(Vault::new(
        "github".to_string(),
        Some("bob".to_string()),
        Some("x".to_string()),
        None,
        None,
        vec![("k".to_string(), "v".to_string())],
        Some("MZXW6YTBOI======".to_string()),
        TotpHash::Sha256,
    ));
    let bytes = store.to_encrypted_bytes();
    let reloaded = Vaults::from_encrypted_bytes(key, "vaults.lprs".to_string(), &bytes)
        .expect("same key loads");
    assert_eq!(reloaded.vaults.len(), 1);
    let v = &reloaded.vaults[0];
    assert_eq!(v.name, "github");
    assert_eq!(v.username.as_deref(), Some("bob"));
    assert_eq!(v.password.as_deref(), Some("x"));
    assert_eq!(v.service, None);
    assert_eq!(v.note, None);
    assert_eq!(v.totp_secret.as_deref(), Some("MZXW6YTBOI======"));
    assert_eq!(v.totp_hash, TotpHash::Sha256);
    assert_eq!(v.custom_fields, vec![("k".to_string(), "v".to_string())]);
}

#[test]
fn empty_file_is_empty_store() {
    let key = [0u8; 32];
    let store = Vaults::from_encrypted_bytes(key, "f".to_string(), b"").unwrap();
    assert!(store.vaults.is_empty());
}

#[test]
fn load_with_wrong_key_fails() {
    let key_a = [1u8; 32];
    let key_b = [2u8; 32];
    let store = store_with(&["one", "two"], key_a);
    let bytes = store.to_encrypted_bytes();
    let result = Vaults::from_encrypted_bytes(key_b, "f".to_string(), &bytes);
    assert!(result.is_err());
}

#[test]
fn load_garbage_fails_with_decryption_error() {
    let key = [1u8; 32];
    let err = Vaults::from_encrypted_bytes(key, "f".to_string(), &[1, 2, 3]).unwrap_err();
    assert_eq!(err, Error::Decryption);
}

#[test]
fn load_corrupt_container_fails_with_serialization_error() {
    let key = [7u8; 32];
    // A blob that decrypts fine but does not parse as a container.
    let blob = lprs::cipher::encrypt(&key, b"not a container");
    let err = Vaults::from_encrypted_bytes(key, "f".to_string(), &blob).unwrap_err();
    assert_eq!(err, Error::Serialization);
}

#[test]
fn change_master_key_reencrypts_on_save() {
    let old_key = [1u8; 32];
    let new_key = [9u8; 32];
    let mut store = store_with(&["site"], old_key);
    store.change_master_key(new_key);
    let bytes = store.to_encrypted_bytes();
    assert!(Vaults::from_encrypted_bytes(old_key, "f".to_string(), &bytes).is_err());
    let reloaded = Vaults::from_encrypted_bytes(new_key, "f".to_string(), &bytes).unwrap();
    assert_eq!(reloaded.vaults.len(), 1);
    assert_eq!(reloaded.vaults[0].name, "site");
}

#[test]
fn clean_wipes_records() {
    let mut store = store_with(&["a", "b"], [0u8; 32]);
    store.clean();
    assert!(store.vaults.is_empty());
}

#[test]
fn selector_parse_tie_break() {
    assert!(matches!(parse_selector("1"), Selector::Index(1)));
    assert!(matches!(parse_selector("42"), Selector::Index(42)));
    assert!(matches!(parse_selector("0"), Selector::Name(_)));
    assert!(matches!(parse_selector("web"), Selector::Name(_)));
    assert!(matches!(parse_selector("1a"), Selector::Name(_)));
    assert!(matches!(parse_selector(""), Selector::Name(_)));
}

#[test]
fn selector_parse_trims_and_accepts_plus() {
    // Integer parsing trims and takes one leading plus sign.
    assert!(matches!(parse_selector(" 1"), Selector::Index(1)));
    assert!(matches!(parse_selector("1 "), Selector::Index(1)));
    assert!(matches!(parse_selector("+5"), Selector::Index(5)));
    assert!(matches!(parse_selector("+0"), Selector::Name(_)));
    assert!(matches!(parse_selector("+"), Selector::Name(_)));
    // A name falls back to the argument as written, untrimmed.
    match parse_selector(" x ") {
        Selector::Name(n) => assert_eq!(n, " x "),
        other => panic!("expected a name, got {other:?}"),
    }
}

#[test]
fn lookup_precedence() {
    // Records named "5" and "web": a digit selector resolves by position,
    // never by name.
    let store = store_with(&["5", "web"], [0u8; 32]);
    let by_index = vault_by_index_or_name(&parse_selector("1"), &store.vaults).unwrap();
    assert_eq!(by_index, 0);
    let by_name = vault_by_index_or_name(&parse_selector("web"), &store.vaults).unwrap();
    assert_eq!(by_name, 1);
    // The record named "5" cannot be reached by that digit string: it
    // resolves as the out-of-range index five.
    let err = vault_by_index_or_name(&parse_selector("5"), &store.vaults).unwrap_err();
    assert_eq!(err, Error::NotFound(SelectorKind::Index));
}

#[test]
fn lookup_errors_carry_selector_kind() {
    let store = store_with(&["a"], [0u8; 32]);
    let err = vault_by_index_or_name(&Selector::Index(2), &store.vaults).unwrap_err();
    assert_eq!(err, Error::NotFound(SelectorKind::Index));
    let err = vault_by_index_or_name(&Selector::Name("nope".to_string()), &store.vaults)
        .unwrap_err();
    assert_eq!(err, Error::NotFound(SelectorKind::Name));
}

#[test]
fn lookup_name_first_match() {
    let store = store_with(&["dup", "dup"], [0u8; 32]);
    let at = vault_by_index_or_name(&Selector::Name("dup".to_string()), &store.vaults).unwrap();
    assert_eq!(at, 0);
}

#[test]
fn bulk_remove_is_all_or_nothing() {
    let mut store = store_with(&["a", "b", "c"], [0u8; 32]);
    let bad = vec![Selector::Index(1), Selector::Name("nope".to_string())];
    let err = resolve_selectors(&bad, &store.vaults).unwrap_err();
    assert!(matches!(err, Error::NotFound(_)));

    let good = vec![Selector::Index(3), Selector::Name("a".to_string())];
    let indices = resolve_selectors(&good, &store.vaults).unwrap();
    assert_eq!(indices, vec![2, 0]);
    store.retain_not_in(&indices);
    assert_eq!(store.vaults.len(), 1);
    assert_eq!(store.vaults[0].name, "b");
}

#[test]
fn remove_single_record() {
    let mut store = store_with(&["a", "b"], [0u8; 32]);
    let removed = store.remove_vault(0);
    assert_eq!(removed.name, "a");
    assert_eq!(store.vaults.len(), 1);
    assert_eq!(store.vaults[0].name, "b");
}

#[test]
fn portable_export_import_round_trip() {
    let key = [3u8; 32];
    let store = store_with(&["one", "two"], key);
    let exported = store.json_export(&key);
    assert_eq!(exported.len(), 2);
    let back = Vaults::json_reload(&key, &exported).unwrap();
    assert_eq!(back.len(), 2);
    assert_eq!(back[0].name, "one");
    assert_eq!(back[1].name, "two");
    assert_eq!(back[0].username.as_deref(), Some("one-user"));
}

#[test]
fn portable_import_wrong_key_fails_and_store_unchanged() {
    let key_a = [1u8; 32];
    let key_b = [2u8; 32];
    let source = store_with(&["secret"], key_a);
    let exported = source.json_export(&key_a);

    let mut target = store_with(&["existing"], key_b);
    let err = target.import_portable(&exported, &key_b).unwrap_err();
    assert_eq!(err, Error::Decryption);
    assert_eq!(target.vaults.len(), 1);
    assert_eq!(target.vaults[0].name, "existing");
}

#[test]
fn portable_import_under_right_key_appends() {
    let key = [4u8; 32];
    let source = store_with(&["new-one"], key);
    let exported = source.json_export(&key);
    let mut target = store_with(&["old"], key);
    let count = target.import_portable(&exported, &key).unwrap();
    assert_eq!(count, 1);
    assert_eq!(target.vaults.len(), 2);
    assert_eq!(target.vaults[1].name, "new-one");
}

#[test]
fn portable_import_rejects_reserved_prefix() {
    let key = [5u8; 32];
    let mut source = store_with(&[], key);
    let mut v = named("sneaky");
    v.custom_fields
        .push((".lprsfield.Foo".to_string(), "boom".to_string()));
    source.add_vault(v);
    let exported = source.json_export(&key);
    let mut target = store_with(&["safe"], key);
    let err = target.import_portable(&exported, &key).unwrap_err();
    assert_eq!(err, Error::ReservedPrefix);
    assert_eq!(target.vaults.len(), 1);
}

#[test]
fn foreign_import_rejects_reserved_prefix() {
    let key = [5u8; 32];
    let mut source = store_with(&[], key);
    let mut v = named("sneaky");
    v.custom_fields
        .push((".lprsfield.Foo".to_string(), "boom".to_string()));
    source.add_vault(v);
    let foreign = lprs::bitwarden::BitWardenPasswords::from_vaults(&source);
    let mut target = store_with(&["safe"], key);
    let err = target.import_foreign(foreign).unwrap_err();
    assert_eq!(err, Error::ReservedPrefix);
    assert_eq!(target.vaults.len(), 1);
}

#[test]
fn foreign_round_trip_keeps_login_fields() {
    let key = [6u8; 32];
    let mut store = store_with(&[], key);
    let mut v = named("site");
    v.service = Some("https://example.com".to_string());
    v.note = Some("note".to_string());
    v.custom_fields.push(("k".to_string(), "v".to_string()));
    v.totp_secret = Some("MZXW6YTBOI======".to_string());
    store.add_vault(v);

    let foreign = lprs::bitwarden::BitWardenPasswords::from_vaults(&store);
    assert!(!foreign.encrypted);
    assert!(foreign.folders.is_empty());
    assert_eq!(foreign.items.len(), 1);
    assert_eq!(foreign.items[0].ty, 1);

    let mut target = store_with(&[], key);
    let count = target.import_foreign(foreign).unwrap();
    assert_eq!(count, 1);
    let back = &target.vaults[0];
    assert_eq!(back.name, "site");
    assert_eq!(back.username.as_deref(), Some("site-user"));
    assert_eq!(back.password.as_deref(), Some("pw"));
    assert_eq!(back.service.as_deref(), Some("https://example.com"));
    assert_eq!(back.note.as_deref(), Some("note"));
    assert_eq!(back.custom_fields, vec![("k".to_string(), "v".to_string())]);
    // The foreign schema has no slot for the TOTP seed: it is lost.
    assert_eq!(back.totp_secret, None);
}

#[test]
fn export_format_choice_exists() {
    assert_ne!(Format::Lprs, Format::BitWarden);
}

#[test]
fn add_save_reload_scenario() {
    // A fresh empty vault file, one added record, saved and reloaded with
    // the same key: one record with equal fields.
    let key = lprs::cipher::derive_master_key("a strong master password");
    let empty = Vaults::from_encrypted_bytes(key, "vaults.lprs".to_string(), b"").unwrap();
    assert!(empty.vaults.is_empty());
    let mut store = empty;
    store.add_vault(Vault::new(
        "github".to_string(),
        Some("bob".to_string()),
        Some("x".to_string()),
        None,
        None,
        Vec::new(),
        None,
        TotpHash::Sha1,
    ));
    let bytes = store.to_encrypted_bytes();
    let reloaded = Vaults::from_encrypted_bytes(key, "vaults.lprs".to_string(), &bytes).unwrap();
    assert_eq!(reloaded.vaults.len(), 1);
    assert_eq!(reloaded.vaults[0].name, "github");
    assert_eq!(reloaded.vaults[0].username.as_deref(), Some("bob"));
    assert_eq!(reloaded.vaults[0].password.as_deref(), Some("x"));
}
