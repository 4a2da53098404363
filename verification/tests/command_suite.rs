//! Tests of the command logic: validation rules, field selection, the
//! password generator, the list filter, and the argument parsers.

use lprs::cipher::TotpHash;
use lprs::clap_parsers::kv_parser;
use lprs::commands::{
    Add, Commands, Edit, Export, Gen, Import, List, VaultGetField,
};
use lprs::errors::Error;
use lprs::store::Selector;
use lprs::utils::get_duplicated_field;
use lprs::vault::{Format, Vault};

fn empty_add(force: bool) -> Add {
    Add {
        vault_info: Vault::new(
            "a".to_string(),
            None,
            None,
            None,
            None,
            Vec::new(),
            None,
            TotpHash::Sha1,
        ),
        password: None,
        totp_secret: None,
        custom_fields: Vec::new(),
        force,
    }
}

#[test]
fn add_empty_record_rejected_without_force() {
    // A record with only a name and no force flag is an empty record.
    let err = empty_add(false).validate_args().unwrap_err();
    assert_eq!(err, Error::EmptyRecord);
}

#[test]
fn add_empty_record_allowed_with_force() {
    let add = empty_add(true);
    add.validate_args().unwrap();
    let mut store = lprs::store::Vaults::new([0u8; 32], "f".to_string(), Vec::new());
    add.apply(&mut store, None, None, Vec::new()).unwrap();
    assert_eq!(store.vaults.len(), 1);
    let v = &store.vaults[0];
    assert_eq!(v.name, "a");
    assert!(v.username.is_none());
    assert!(v.password.is_none());
    assert!(v.service.is_none());
    assert!(v.note.is_none());
    assert!(v.totp_secret.is_none());
    assert!(v.custom_fields.is_empty());
}

#[test]
fn add_reserved_prefix_rejected_despite_force() {
    let mut add = empty_add(true);
    add.custom_fields
        .push((".lprsfield.Foo".to_string(), Some("x".to_string())));
    let err = add.validate_args().unwrap_err();
    assert_eq!(err, Error::ReservedPrefix);
}

#[test]
fn add_duplicate_keys_rejected_without_force() {
    let mut add = empty_add(false);
    add.custom_fields
        .push(("k".to_string(), Some("1".to_string())));
    add.custom_fields
        .push(("k".to_string(), Some("2".to_string())));
    let err = add.validate_args().unwrap_err();
    assert_eq!(err, Error::DuplicateField("k".to_string()));
    add.force = true;
    add.validate_args().unwrap();
}

#[test]
fn forced_add_merges_duplicate_keys() {
    // Under force, a key given twice is stored once, last value winning:
    // the record's keys stay unique.
    let add = Add {
        custom_fields: vec![
            ("k".to_string(), Some("1".to_string())),
            ("other".to_string(), Some("x".to_string())),
            ("k".to_string(), Some("2".to_string())),
        ],
        ..empty_add(true)
    };
    let mut store = lprs::store::Vaults::new([0u8; 32], "f".to_string(), Vec::new());
    add.apply(
        &mut store,
        None,
        None,
        vec![
            ("k".to_string(), "1".to_string()),
            ("other".to_string(), "x".to_string()),
            ("k".to_string(), "2".to_string()),
        ],
    )
    .unwrap();
    assert_eq!(
        store.vaults[0].custom_fields,
        vec![
            ("k".to_string(), "2".to_string()),
            ("other".to_string(), "x".to_string()),
        ]
    );
}

#[test]
fn add_trims_name_and_validates_seed() {
    let mut add = empty_add(true);
    add.vault_info.name = "  padded  ".to_string();
    let mut store = lprs::store::Vaults::new([0u8; 32], "f".to_string(), Vec::new());
    let err = add
        .apply(&mut store, None, Some("bad seed".to_string()), Vec::new())
        .unwrap_err();
    assert!(matches!(err, Error::Base32(_)));
    assert!(store.vaults.is_empty());

    let add = Add {
        vault_info: Vault::new(
            "  padded  ".to_string(),
            None,
            None,
            None,
            None,
            Vec::new(),
            None,
            TotpHash::Sha1,
        ),
        password: None,
        totp_secret: None,
        custom_fields: Vec::new(),
        force: true,
    };
    add.apply(
        &mut store,
        Some("pw".to_string()),
        Some("MZXW6YTBOI======".to_string()),
        Vec::new(),
    )
    .unwrap();
    assert_eq!(store.vaults[0].name, "padded");
    assert_eq!(store.vaults[0].password.as_deref(), Some("pw"));
    assert_eq!(
        store.vaults[0].totp_secret.as_deref(),
        Some("MZXW6YTBOI======")
    );
}

#[test]
fn edit_nothing_rejected_without_force() {
    let edit = Edit {
        location: Selector::Index(1),
        name: None,
        username: None,
        password: None,
        service: None,
        note: None,
        totp_secret: None,
        custom_fields: Vec::new(),
        force: false,
    };
    assert_eq!(edit.validate_args().unwrap_err(), Error::EmptyRecord);
    let forced = Edit { force: true, ..edit };
    forced.validate_args().unwrap();
}

#[test]
fn list_regex_needs_filter() {
    let list = List { filter: None, regex: true, json: false };
    assert!(matches!(list.validate_args().unwrap_err(), Error::ArgsConflict(_)));
    let ok = List { filter: Some("x".to_string()), regex: true, json: false };
    ok.validate_args().unwrap();
}

#[test]
fn list_filter_substring_case_insensitive() {
    let vaults = vec![
        named_vault("GitHub"),
        named_vault("gitlab"),
        named_vault("email"),
    ];
    let list = List { filter: Some("GIT".to_string()), regex: false, json: false };
    let indices = list.filter_vaults(&vaults).unwrap();
    assert_eq!(indices, vec![0, 1]);
}

#[test]
fn list_filter_matches_other_fields() {
    let mut v = named_vault("site");
    v.username = Some("Charlie".to_string());
    let vaults = vec![named_vault("other"), v];
    let list = List { filter: Some("charlie".to_string()), regex: false, json: false };
    assert_eq!(list.filter_vaults(&vaults).unwrap(), vec![1]);
}

#[test]
fn list_filter_escapes_the_substring_pattern() {
    // In substring mode the filter is literal text: the dot must not act
    // as a regex wildcard.
    let vaults = vec![named_vault("a.b"), named_vault("axb")];
    let list = List { filter: Some("a.b".to_string()), regex: false, json: false };
    assert_eq!(list.filter_vaults(&vaults).unwrap(), vec![0]);
}

#[test]
fn list_filter_regex_mode() {
    let vaults = vec![named_vault("alpha"), named_vault("beta"), named_vault("gamma")];
    let list = List { filter: Some("^(a|g)".to_string()), regex: true, json: false };
    assert_eq!(list.filter_vaults(&vaults).unwrap(), vec![0, 2]);
}

#[test]
fn list_filter_bad_regex_reports_error() {
    let vaults = vec![named_vault("a")];
    let list = List { filter: Some("(unclosed".to_string()), regex: true, json: false };
    assert!(matches!(list.filter_vaults(&vaults).unwrap_err(), Error::InvalidRegex(_)));
}

#[test]
fn list_no_filter_keeps_everything() {
    let vaults = vec![named_vault("a"), named_vault("b")];
    let list = List { filter: None, regex: false, json: true };
    assert_eq!(list.filter_vaults(&vaults).unwrap(), vec![0, 1]);
}

fn named_vault(name: &str) -> Vault {
    Vault::new(
        name.to_string(),
        None,
        None,
        None,
        None,
        Vec::new(),
        None,
        TotpHash::Sha1,
    )
}

#[test]
fn gen_needs_a_character_class() {
    let gen = Gen { length: 18, uppercase: false, lowercase: false, numbers: false, symbols: false };
    assert!(matches!(gen.generate().unwrap_err(), Error::Other(_)));
}

#[test]
fn gen_produces_asked_length() {
    let gen = Gen { length: 18, uppercase: true, lowercase: true, numbers: true, symbols: true };
    let pw = gen.generate().unwrap();
    assert_eq!(pw.chars().count(), 18);
}

#[test]
fn gen_rejects_length_below_class_count() {
    let gen = Gen { length: 1, uppercase: true, lowercase: true, numbers: false, symbols: false };
    assert!(matches!(gen.generate().unwrap_err(), Error::Other(_)));
    let ok = Gen { length: 2, uppercase: true, lowercase: true, numbers: false, symbols: false };
    assert_eq!(ok.generate().unwrap().chars().count(), 2);
}

#[test]
fn gen_rejects_zero_length() {
    let gen = Gen { length: 0, uppercase: true, lowercase: false, numbers: false, symbols: false };
    assert!(matches!(gen.generate().unwrap_err(), Error::Other(_)));
}

#[test]
fn get_field_parses_case_insensitively() {
    assert!(matches!(VaultGetField::from_str("Username"), VaultGetField::Username));
    assert!(matches!(VaultGetField::from_str("TOTP_CODE"), VaultGetField::TotpCode));
    match VaultGetField::from_str("MyKey") {
        VaultGetField::Custom(k) => assert_eq!(k, "MyKey"),
        other => panic!("expected a custom field, got {other:?}"),
    }
}

#[test]
fn get_field_reads_the_vault() {
    let mut v = named_vault("site");
    v.username = Some("u".to_string());
    v.custom_fields.push(("k".to_string(), "v".to_string()));
    assert_eq!(VaultGetField::Name.get_from_vault(&v), Some("site"));
    assert_eq!(VaultGetField::Username.get_from_vault(&v), Some("u"));
    assert_eq!(VaultGetField::Password.get_from_vault(&v), None);
    assert_eq!(VaultGetField::Custom("k".to_string()).get_from_vault(&v), Some("v"));
    assert_eq!(VaultGetField::Custom("zzz".to_string()).get_from_vault(&v), None);
    assert_eq!(VaultGetField::Index.get_from_vault(&v), None);
    assert_eq!(VaultGetField::TotpCode.get_from_vault(&v), None);
}

#[test]
fn get_field_names() {
    assert_eq!(VaultGetField::TotpSecret.as_str(), "totp_secret");
    assert_eq!(VaultGetField::Custom("x".to_string()).as_str(), "x");
}

#[test]
fn export_validation() {
    let base = Export {
        path: "out.json".to_string(),
        format: Format::Lprs,
        encryption_password: None,
    };
    base.validate_args(false, false).unwrap();
    assert!(matches!(
        base.validate_args(true, false).unwrap_err(),
        Error::Io(_)
    ));
    let not_json = Export { path: "out.txt".to_string(), ..base.clone() };
    assert!(matches!(not_json.validate_args(false, false).unwrap_err(), Error::Io(_)));
    let pw_with_foreign = Export {
        format: Format::BitWarden,
        encryption_password: Some(None),
        ..base
    };
    assert!(matches!(
        pw_with_foreign.validate_args(false, false).unwrap_err(),
        Error::ArgsConflict(_)
    ));
}

#[test]
fn import_validation() {
    let base = Import {
        path: "in.JSON".to_string(),
        format: Format::Lprs,
        decryption_password: None,
    };
    base.validate_args(true, false).unwrap();
    assert!(matches!(base.validate_args(false, false).unwrap_err(), Error::Io(_)));
    assert!(matches!(base.validate_args(true, true).unwrap_err(), Error::Io(_)));
}

#[test]
fn commands_know_when_they_need_the_store() {
    let gen = Commands::Gen(Gen {
        length: 1,
        uppercase: true,
        lowercase: false,
        numbers: false,
        symbols: false,
    });
    assert!(!gen.needs_vault_manager());
    let list = Commands::List(List { filter: None, regex: false, json: false });
    assert!(list.needs_vault_manager());
}

#[test]
fn kv_parser_splits_and_trims() {
    assert_eq!(
        kv_parser(" key = value ").unwrap(),
        ("key".to_string(), Some("value".to_string()))
    );
    assert_eq!(kv_parser("key=").unwrap(), ("key".to_string(), Some(String::new())));
    assert_eq!(kv_parser(" key ").unwrap(), ("key".to_string(), None));
    assert_eq!(kv_parser("a=b=c").unwrap(), ("a".to_string(), Some("b=c".to_string())));
    assert!(matches!(kv_parser("   ").unwrap_err(), Error::ArgParse(_)));
}

#[test]
fn text_helpers() {
    assert_eq!(lprs::text::u64_to_string(0), "0");
    assert_eq!(lprs::text::u64_to_string(90210), "90210");
    assert_eq!(lprs::text::trim_str("  a b\t"), "a b");
    assert_eq!(lprs::text::trim_str("   "), "");
    assert_eq!(lprs::text::parse_usize("007"), Some(7));
    assert_eq!(lprs::text::parse_usize("12x"), None);
    assert_eq!(lprs::text::parse_usize(""), None);
    assert!(lprs::text::str_eq("same", "same"));
    assert!(!lprs::text::str_eq("same", "sam"));
    assert!(lprs::text::str_starts_with(".lprsfield.Foo", ".lprsfield."));
    assert!(!lprs::text::str_starts_with("x", ".lprsfield."));
}

#[test]
fn format_names() {
    assert_eq!(Format::Lprs.as_str(), "lprs");
    assert_eq!(Format::BitWarden.as_str(), "bitwarden");
}

#[test]
fn duplicated_field_detection() {
    let no_dup = vec![
        ("a".to_string(), None),
        ("b".to_string(), Some("1".to_string())),
    ];
    assert_eq!(get_duplicated_field(&no_dup), None);
    let dup = vec![
        ("a".to_string(), None),
        ("b".to_string(), None),
        ("a".to_string(), Some("2".to_string())),
    ];
    assert_eq!(get_duplicated_field(&dup), Some("a"));
}
