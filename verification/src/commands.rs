//! The commands' data and decision logic: argument records, their
//! validation rules, and the computations each command performs on the
//! store. Prompting, file and terminal work stay with the shell around
//! the library.

use vstd::prelude::*;

use crate::errors::Error;
use crate::store::{Selector, Vaults};
use regex::Error as RegexError;
use crate::text;
use crate::utils;
use crate::vault::{spec_get_field, Format, Vault};
use vstd::string::StringExecFns;

verus! {

/// Whether any key of an unprocessed custom-field list starts with the
/// reserved prefix.
pub open spec fn spec_kv_has_reserved(fields: Seq<(Seq<char>, Option<Seq<char>>)>) -> bool {
    exists|i: int|
        0 <= i < fields.len() && text::spec_starts_with(
            #[trigger] fields[i].0,
            crate::RESERVED_FIELD_PREFIX@,
        )
}

/// Whether any key of an unprocessed custom-field list starts with the
/// reserved prefix.
pub fn kv_fields_have_reserved(fields: &Vec<(String, Option<String>)>) -> (r: bool)
    ensures
        r == spec_kv_has_reserved(fields.deep_view()),
{
    let prefix = crate::reserved_prefix_str();
    let ghost fv = fields.deep_view();
    let mut i: usize = 0;
    while i < fields.len()
        invariant
            0 <= i <= fields@.len(),
            prefix@ == crate::RESERVED_FIELD_PREFIX@,
            fv == fields.deep_view(),
            fv.len() == fields@.len(),
            forall|j: int|
                0 <= j < i ==> !text::spec_starts_with(
                    #[trigger] fv[j].0,
                    crate::RESERVED_FIELD_PREFIX@,
                ),
        decreases fields@.len() - i,
    {
        proof {
            assert(fv[i as int] =~~= (fields@[i as int].0@, fields@[i as int].1.deep_view()));
        }
        if text::str_starts_with(fields[i].0.as_str(), prefix) {
            proof {
                assert(text::spec_starts_with(fv[i as int].0, crate::RESERVED_FIELD_PREFIX@));
            }
            return true;
        }
        i = i + 1;
    }
    false
}

/// Add command, used to add a new record to the vaults file.
#[derive(Clone, Debug)]
pub struct Add {
    /// The record's argument-supplied parts (name, username, service,
    /// note); the password and TOTP seed come separately so that the
    /// shell can prompt for them.
    pub vault_info: Vault,
    /// The password: absent, or present with or without a value (the
    /// shell prompts when the value is missing).
    pub password: Option<Option<String>>,
    /// The TOTP seed, with the same prompt convention.
    pub totp_secret: Option<Option<String>>,
    /// The custom fields; a key without a value is prompted for.
    pub custom_fields: Vec<(String, Option<String>)>,
    /// Do not fail on an empty record or duplicated keys.
    pub force: bool,
}

impl Add {
    /// Whether there is nothing to add.
    pub open spec fn spec_is_empty(&self) -> bool {
        &&& self.vault_info@.spec_is_empty()
        &&& self.password is None
        &&& self.totp_secret is None
        &&& self.custom_fields@.len() == 0
    }

    /// Check if there is nothing to add.
    pub fn is_empty(&self) -> (r: bool)
        ensures
            r == self.spec_is_empty(),
    {
        self.vault_info.is_empty() && self.password.is_none() && self.totp_secret.is_none()
            && self.custom_fields.len() == 0
    }

    /// Reject an empty record and duplicated custom keys unless forced;
    /// reject a reserved-prefix custom key whatever the force flag says.
    pub fn validate_args(&self) -> (r: Result<(), Error>)
        ensures
            validate_fields_post(
                r,
                !self.force && self.spec_is_empty(),
                self.force,
                self.custom_fields.deep_view(),
            ),
    {
        if !self.force && self.is_empty() {
            return Err(Error::EmptyRecord);
        }
        validate_custom_fields(self.force, &self.custom_fields)
    }

    /// Build the record and add it to the store: the name is trimmed, a
    /// present TOTP seed must be valid base32, and the resolved password,
    /// seed and custom fields take the places of the prompt-able
    /// arguments. The custom fields are merged so that a key given twice
    /// is stored once, last value winning, keeping the record's keys
    /// unique. On a malformed seed the store is untouched.
    pub fn apply(
        self,
        vault_manager: &mut Vaults,
        password: Option<String>,
        totp_secret: Option<String>,
        custom_fields: Vec<(String, String)>,
    ) -> (r: Result<(), Error>)
        ensures
            final(vault_manager).master_password == old(vault_manager).master_password,
            final(vault_manager).vaults_file == old(vault_manager).vaults_file,
            match r {
                Ok(()) => {
                    &&& (match totp_secret.deep_view() {
                        Some(ts) => crate::cipher::base32_decode_of(ts) is Some,
                        None => true,
                    })
                    &&& final(vault_manager).vaults@.len() == old(vault_manager).vaults@.len() + 1
                    &&& final(vault_manager).vaults@.last()@ == (crate::vault::VaultView {
                        name: text::spec_trim(self.vault_info@.name),
                        username: self.vault_info@.username,
                        password: password.deep_view(),
                        service: self.vault_info@.service,
                        note: self.vault_info@.note,
                        totp_secret: totp_secret.deep_view(),
                        totp_hash: self.vault_info@.totp_hash,
                        custom_fields: crate::vault::spec_apply_fields(
                            Seq::<(Seq<char>, Seq<char>)>::empty(),
                            custom_fields.deep_view(),
                        ),
                    })
                    &&& crate::vault::unique_keys(
                        final(vault_manager).vaults@.last()@.custom_fields,
                    )
                    &&& final(vault_manager).vaults@.subrange(
                        0,
                        old(vault_manager).vaults@.len() as int,
                    ) == old(vault_manager).vaults@
                },
                Err(e) => final(vault_manager).vaults@ == old(vault_manager).vaults@ && e is Base32
                    && (match totp_secret.deep_view() {
                    Some(ts) => crate::cipher::base32_decode_of(ts) is None,
                    None => false,
                }),
            },
    {
        match &totp_secret {
            Some(ts) => {
                match crate::cipher::base32_decode(ts.as_str()) {
                    Ok(_) => {},
                    Err(_) => {
                        return Err(
                            Error::Base32(
                                "Invalid TOTP secret, must be valid base32 string".to_owned(),
                            ),
                        );
                    },
                }
            },
            None => {},
        }
        let name = text::trim_str(self.vault_info.name.as_str()).to_owned();
        let ghost edits = custom_fields.deep_view();
        let mut merged: Vec<(String, String)> = Vec::new();
        proof {
            assert(merged.deep_view() =~= Seq::<(Seq<char>, Seq<char>)>::empty());
            crate::vault::lemma_apply_fields_unique(
                Seq::<(Seq<char>, Seq<char>)>::empty(),
                edits,
            );
        }
        crate::vault::apply_custom_fields(&mut merged, custom_fields);
        let vault = Vault::new(
            name,
            self.vault_info.username,
            password,
            self.vault_info.service,
            self.vault_info.note,
            merged,
            totp_secret,
            self.vault_info.totp_hash,
        );
        let ghost old_vaults = vault_manager.vaults@;
        vault_manager.add_vault(vault);
        proof {
            assert(final(vault_manager).vaults@.subrange(0, old_vaults.len() as int)
                =~= old_vaults);
        }
        Ok(())
    }
}

/// What validating the custom fields (with the emptiness rule already
/// settled) must report: the empty-record error when `empty_rejected`,
/// else the duplicate error unless forced, else the reserved-prefix
/// error whatever the force flag says.
pub open spec fn validate_fields_post(
    r: Result<(), Error>,
    empty_rejected: bool,
    force: bool,
    fields: Seq<(Seq<char>, Option<Seq<char>>)>,
) -> bool {
    match r {
        Ok(()) => !empty_rejected && (force || !utils::spec_has_duplicate(fields))
            && !spec_kv_has_reserved(fields),
        Err(e) => match e {
            Error::EmptyRecord => empty_rejected,
            Error::DuplicateField(k) => !empty_rejected && !force && utils::spec_has_duplicate(
                fields,
            ) && (exists|i: int, j: int|
                0 <= i < j < fields.len() && fields[i].0 == k@ && fields[j].0 == k@),
            Error::ReservedPrefix => !empty_rejected && (force || !utils::spec_has_duplicate(
                fields,
            )) && spec_kv_has_reserved(fields),
            _ => false,
        },
    }
}

/// The shared part of add/edit validation: duplicated keys are rejected
/// unless forced; a reserved-prefix key is rejected whatever the force
/// flag says.
fn validate_custom_fields(force: bool, fields: &Vec<(String, Option<String>)>) -> (r: Result<
    (),
    Error,
>)
    ensures
        validate_fields_post(r, false, force, fields.deep_view()),
{
    if !force {
        match utils::get_duplicated_field(fields.as_slice()) {
            Some(key) => {
                return Err(Error::DuplicateField(key.to_owned()));
            },
            None => {},
        }
    }
    if kv_fields_have_reserved(fields) {
        return Err(Error::ReservedPrefix);
    }
    Ok(())
}

/// Edit command, used to edit the content of a record.
#[derive(Clone, Debug)]
pub struct Edit {
    /// The record to edit, by index or name.
    pub location: Selector,
    /// The new name.
    pub name: Option<String>,
    /// The new username; the empty string deletes it.
    pub username: Option<String>,
    /// The new password; the empty string deletes it, a missing value is
    /// prompted for.
    pub password: Option<Option<String>>,
    /// The new service; the empty string deletes it.
    pub service: Option<String>,
    /// The new note; the empty string deletes it.
    pub note: Option<String>,
    /// The new TOTP seed; the empty string deletes it, a missing value is
    /// prompted for.
    pub totp_secret: Option<Option<String>>,
    /// The custom-field edits; an empty value removes the key, a missing
    /// value is prompted for.
    pub custom_fields: Vec<(String, Option<String>)>,
    /// Do not fail on an empty edit, duplicated keys, or a selector that
    /// resolves to no record.
    pub force: bool,
}

impl Edit {
    /// Whether the edit would change nothing.
    pub open spec fn spec_is_empty(&self) -> bool {
        &&& self.name is None
        &&& self.username is None
        &&& self.password is None
        &&& self.service is None
        &&& self.note is None
        &&& self.totp_secret is None
        &&& self.custom_fields@.len() == 0
    }

    /// Reject an edit that names nothing and duplicated custom keys
    /// unless forced; reject a reserved-prefix custom key whatever the
    /// force flag says.
    pub fn validate_args(&self) -> (r: Result<(), Error>)
        ensures
            validate_fields_post(
                r,
                !self.force && self.spec_is_empty(),
                self.force,
                self.custom_fields.deep_view(),
            ),
    {
        if !self.force && self.name.is_none() && self.username.is_none()
            && self.password.is_none() && self.service.is_none() && self.note.is_none()
            && self.totp_secret.is_none() && self.custom_fields.len() == 0 {
            return Err(Error::EmptyRecord);
        }
        validate_custom_fields(self.force, &self.custom_fields)
    }
}

/// List command, used to list the records and search them.
#[derive(Clone, Debug)]
pub struct List {
    /// Filter the list with this text.
    pub filter: Option<String>,
    /// Treat the filter as a regular expression.
    pub regex: bool,
    /// Emit the matching records as a machine-readable list.
    pub json: bool,
}

impl List {
    /// The regular-expression flag needs a filter to apply to.
    pub fn validate_args(&self) -> (r: Result<(), Error>)
        ensures
            match r {
                Ok(()) => !(self.regex && self.filter is None),
                Err(e) => self.regex && self.filter is None && e is ArgsConflict,
            },
    {
        if self.regex && self.filter.is_none() {
            return Err(
                Error::ArgsConflict(
                    "You cannot use the `--regex` flag if you did not use the search option".to_owned(),
                ),
            );
        }
        Ok(())
    }
}

/// Remove command, used to remove records from the vaults file.
#[derive(Clone, Debug)]
pub struct Remove {
    /// The records to remove, each by index or name.
    pub locations: Vec<Selector>,
    /// Do not fail when a selector resolves to no record.
    pub force: bool,
}

/// Clean command, used to wipe the vaults file.
#[derive(Clone, Debug)]
pub struct Clean {}

/// Generate command, used to generate a password.
#[derive(Clone, Debug)]
pub struct Gen {
    /// The password length.
    pub length: usize,
    /// With uppercase letters.
    pub uppercase: bool,
    /// With lowercase letters.
    pub lowercase: bool,
    /// With numbers.
    pub numbers: bool,
    /// With symbols.
    pub symbols: bool,
}

/// How many character classes are enabled.
pub open spec fn spec_class_count(
    uppercase: bool,
    lowercase: bool,
    numbers: bool,
    symbols: bool,
) -> int {
    (if uppercase {
        1int
    } else {
        0int
    }) + (if lowercase {
        1int
    } else {
        0int
    }) + (if numbers {
        1int
    } else {
        0int
    }) + (if symbols {
        1int
    } else {
        0int
    })
}

/// Relies on `passwords::PasswordGenerator` (strict): a random password
/// of exactly `length` characters drawn from the enabled classes, one of
/// each at least. Its refusal is deterministic: a zero length, no enabled
/// class, or a length below the number of enabled classes, and nothing
/// else. Nothing is promised of which password comes back.
#[verifier::external_body]
fn generate_password(
    length: usize,
    uppercase: bool,
    lowercase: bool,
    numbers: bool,
    symbols: bool,
) -> (r: Result<String, &'static str>)
    ensures
        match r {
            Ok(s) => s@.len() == length && length > 0 && spec_class_count(
                uppercase,
                lowercase,
                numbers,
                symbols,
            ) > 0 && spec_class_count(uppercase, lowercase, numbers, symbols) <= length,
            Err(_) => length == 0 || spec_class_count(uppercase, lowercase, numbers, symbols) == 0
                || spec_class_count(uppercase, lowercase, numbers, symbols) > length,
        },
{
    passwords::PasswordGenerator::new()
        .length(length)
        .uppercase_letters(uppercase)
        .lowercase_letters(lowercase)
        .numbers(numbers)
        .symbols(symbols)
        .strict(true)
        .generate_one()
}

impl Gen {
    /// Generate one password. Fails exactly when no character class is
    /// enabled, the length is zero, or the length is below the number of
    /// enabled classes; otherwise the result has exactly the asked-for
    /// length.
    pub fn generate(&self) -> (r: Result<String, Error>)
        ensures
            match r {
                Ok(s) => self.length > 0 && spec_class_count(
                    self.uppercase,
                    self.lowercase,
                    self.numbers,
                    self.symbols,
                ) > 0 && spec_class_count(
                    self.uppercase,
                    self.lowercase,
                    self.numbers,
                    self.symbols,
                ) <= self.length && s@.len() == self.length,
                Err(e) => e is Other && (self.length == 0 || spec_class_count(
                    self.uppercase,
                    self.lowercase,
                    self.numbers,
                    self.symbols,
                ) == 0 || spec_class_count(
                    self.uppercase,
                    self.lowercase,
                    self.numbers,
                    self.symbols,
                ) > self.length),
            },
    {
        if self.uppercase || self.lowercase || self.numbers || self.symbols {
            match generate_password(
                self.length,
                self.uppercase,
                self.lowercase,
                self.numbers,
                self.symbols,
            ) {
                Ok(s) => Ok(s),
                Err(msg) => Err(Error::Other(msg.to_owned())),
            }
        } else {
            Err(Error::Other("You need to enable at least one kind of characters".to_owned()))
        }
    }
}

/// A single field of a record that the get command can print.
#[derive(Clone, Debug)]
pub enum VaultGetField {
    /// The record's one-based position.
    Index,
    /// The record name.
    Name,
    /// The username.
    Username,
    /// The password.
    Password,
    /// The service.
    Service,
    /// The note.
    Note,
    /// The TOTP seed.
    TotpSecret,
    /// The computed TOTP code.
    TotpCode,
    /// A custom field, by its key.
    Custom(String),
}

impl VaultGetField {
    /// Parse a field name, case-insensitively; anything that is not a
    /// built-in field names a custom field, with its case kept.
    pub fn from_str(input: &str) -> (r: VaultGetField)
        ensures
            match r {
                VaultGetField::Index => text::lower_of(input@) == "index"@,
                VaultGetField::Name => text::lower_of(input@) == "name"@,
                VaultGetField::Username => text::lower_of(input@) == "username"@,
                VaultGetField::Password => text::lower_of(input@) == "password"@,
                VaultGetField::Service => text::lower_of(input@) == "service"@,
                VaultGetField::Note => text::lower_of(input@) == "note"@,
                VaultGetField::TotpSecret => text::lower_of(input@) == "totp_secret"@,
                VaultGetField::TotpCode => text::lower_of(input@) == "totp_code"@,
                VaultGetField::Custom(s) => s@ == input@,
            },
    {
        let lower = text::to_lowercase(input);
        let l = lower.as_str();
        if text::str_eq(l, "index") {
            VaultGetField::Index
        } else if text::str_eq(l, "name") {
            VaultGetField::Name
        } else if text::str_eq(l, "username") {
            VaultGetField::Username
        } else if text::str_eq(l, "password") {
            VaultGetField::Password
        } else if text::str_eq(l, "service") {
            VaultGetField::Service
        } else if text::str_eq(l, "note") {
            VaultGetField::Note
        } else if text::str_eq(l, "totp_secret") {
            VaultGetField::TotpSecret
        } else if text::str_eq(l, "totp_code") {
            VaultGetField::TotpCode
        } else {
            VaultGetField::Custom(input.to_owned())
        }
    }

    /// Returns the field from the record: nothing for the computed kinds
    /// (position and TOTP code), the stored text otherwise.
    pub fn get_from_vault<'a>(&self, vault: &'a Vault) -> (r: Option<&'a str>)
        ensures
            match self {
                VaultGetField::Index => r is None,
                VaultGetField::Name => r matches Some(s) && s@ == vault@.name,
                VaultGetField::Username => match vault@.username {
                    Some(u) => r matches Some(s) && s@ == u,
                    None => r is None,
                },
                VaultGetField::Password => match vault@.password {
                    Some(p) => r matches Some(s) && s@ == p,
                    None => r is None,
                },
                VaultGetField::Service => match vault@.service {
                    Some(sv) => r matches Some(s) && s@ == sv,
                    None => r is None,
                },
                VaultGetField::Note => match vault@.note {
                    Some(n) => r matches Some(s) && s@ == n,
                    None => r is None,
                },
                VaultGetField::TotpSecret => match vault@.totp_secret {
                    Some(t) => r matches Some(s) && s@ == t,
                    None => r is None,
                },
                VaultGetField::TotpCode => r is None,
                VaultGetField::Custom(field) => match spec_get_field(
                    vault@.custom_fields,
                    field@,
                ) {
                    Some(v) => r matches Some(s) && s@ == v,
                    None => r is None,
                },
            },
    {
        match self {
            VaultGetField::Index => None,
            VaultGetField::Name => Some(vault.name.as_str()),
            VaultGetField::Username => match &vault.username {
                Some(u) => Some(u.as_str()),
                None => None,
            },
            VaultGetField::Password => match &vault.password {
                Some(p) => Some(p.as_str()),
                None => None,
            },
            VaultGetField::Service => match &vault.service {
                Some(sv) => Some(sv.as_str()),
                None => None,
            },
            VaultGetField::Note => match &vault.note {
                Some(n) => Some(n.as_str()),
                None => None,
            },
            VaultGetField::TotpSecret => match &vault.totp_secret {
                Some(t) => Some(t.as_str()),
                None => None,
            },
            VaultGetField::TotpCode => None,
            VaultGetField::Custom(field) => {
                match crate::vault::find_custom_field(&vault.custom_fields, field.as_str()) {
                    Some(at) => {
                        proof {
                            crate::vault::lemma_key_index(vault@.custom_fields, field@);
                            assert(vault@.custom_fields[at as int] =~~= (
                                vault.custom_fields@[at as int].0@,
                                vault.custom_fields@[at as int].1@,
                            ));
                        }
                        Some(vault.custom_fields[at].1.as_str())
                    },
                    None => None,
                }
            },
        }
    }

    /// Returns the field's name as text; a custom field is its key.
    pub fn as_str(&self) -> (r: &str)
        ensures
            match self {
                VaultGetField::Index => r@ == "index"@,
                VaultGetField::Name => r@ == "name"@,
                VaultGetField::Username => r@ == "username"@,
                VaultGetField::Password => r@ == "password"@,
                VaultGetField::Service => r@ == "service"@,
                VaultGetField::Note => r@ == "note"@,
                VaultGetField::TotpSecret => r@ == "totp_secret"@,
                VaultGetField::TotpCode => r@ == "totp_code"@,
                VaultGetField::Custom(field) => r@ == field@,
            },
    {
        match self {
            VaultGetField::Index => "index",
            VaultGetField::Name => "name",
            VaultGetField::Username => "username",
            VaultGetField::Password => "password",
            VaultGetField::Service => "service",
            VaultGetField::Note => "note",
            VaultGetField::TotpSecret => "totp_secret",
            VaultGetField::TotpCode => "totp_code",
            VaultGetField::Custom(field) => field.as_str(),
        }
    }
}

/// Get command, used to print a whole record or one field of it.
#[derive(Clone, Debug)]
pub struct Get {
    /// The record, by index or name.
    pub location: Selector,
    /// The specific field to get, or the whole record when absent.
    pub field: Option<VaultGetField>,
}

/// Export command, used to export the records in the native portable
/// format or the foreign one.
#[derive(Clone, Debug)]
pub struct Export {
    /// The path to export to.
    pub path: String,
    /// The format to export in.
    pub format: Format,
    /// An alternate encryption password for the portable format; the
    /// master key is used when absent.
    pub encryption_password: Option<Option<String>>,
}

/// Import command, used to import records from an exported file.
#[derive(Clone, Debug)]
pub struct Import {
    /// The path to import from.
    pub path: String,
    /// The format to import from.
    pub format: Format,
    /// An alternate decryption password for the portable format; the
    /// master key is used when absent.
    pub decryption_password: Option<Option<String>>,
}

/// The ASCII lowercase of a character; other characters are unchanged.
pub open spec fn spec_ascii_lower(c: char) -> char {
    if 'A' <= c && c <= 'Z' {
        ((c as u8) + 32) as char
    } else {
        c
    }
}

/// Whether a path ends in a `.json` extension, ASCII case-insensitively,
/// with at least one character before the dot.
pub open spec fn spec_is_json_path(s: Seq<char>) -> bool {
    s.len() > 5 && s[s.len() - 5] == '.' && spec_ascii_lower(s[s.len() - 4]) == 'j'
        && spec_ascii_lower(s[s.len() - 3]) == 's' && spec_ascii_lower(s[s.len() - 2]) == 'o'
        && spec_ascii_lower(s[s.len() - 1]) == 'n'
}

/// Whether a path ends in a `.json` extension, ASCII case-insensitively.
pub fn is_json_path(path: &str) -> (r: bool)
    ensures
        r == spec_is_json_path(path@),
{
    let len = path.unicode_len();
    if len <= 5 {
        return false;
    }
    let dot = path.get_char(len - 5);
    let c1 = ascii_lower(path.get_char(len - 4));
    let c2 = ascii_lower(path.get_char(len - 3));
    let c3 = ascii_lower(path.get_char(len - 2));
    let c4 = ascii_lower(path.get_char(len - 1));
    dot == '.' && c1 == 'j' && c2 == 's' && c3 == 'o' && c4 == 'n'
}

/// The ASCII lowercase of a character.
fn ascii_lower(c: char) -> (r: char)
    ensures
        r == spec_ascii_lower(c),
{
    if 'A' <= c && c <= 'Z' {
        (((c as u8) + 32) as char)
    } else {
        c
    }
}

impl Export {
    /// The target must be a fresh `.json` file, and an alternate password
    /// only makes sense for the native portable format. The shell hands
    /// in what it saw on disk.
    pub fn validate_args(&self, path_exists: bool, path_is_dir: bool) -> (r: Result<(), Error>)
        ensures
            match r {
                Ok(()) => spec_is_json_path(self.path@) && !path_exists && !path_is_dir && !(
                self.encryption_password is Some && self.format != Format::Lprs),
                Err(e) => match e {
                    Error::Io(_) => !spec_is_json_path(self.path@) || path_exists || path_is_dir,
                    Error::ArgsConflict(_) => spec_is_json_path(self.path@) && !path_exists
                        && !path_is_dir && self.encryption_password is Some && self.format
                        != Format::Lprs,
                    _ => false,
                },
            },
    {
        if !is_json_path(self.path.as_str()) {
            return Err(Error::Io("the export file must be a json file".to_owned()));
        }
        if path_exists {
            return Err(Error::Io("the export file already exists".to_owned()));
        }
        if path_is_dir {
            return Err(Error::Io("the export file is a directory".to_owned()));
        }
        if self.encryption_password.is_some() && self.format != Format::Lprs {
            return Err(
                Error::ArgsConflict(
                    "You only can to use the encryption password with `lprs` format".to_owned(),
                ),
            );
        }
        Ok(())
    }
}

impl Import {
    /// The source must be an existing `.json` file, and an alternate
    /// password only makes sense for the native portable format. The
    /// shell hands in what it saw on disk.
    pub fn validate_args(&self, path_exists: bool, path_is_dir: bool) -> (r: Result<(), Error>)
        ensures
            match r {
                Ok(()) => spec_is_json_path(self.path@) && path_exists && !path_is_dir && !(
                self.decryption_password is Some && self.format != Format::Lprs),
                Err(e) => match e {
                    Error::Io(_) => !spec_is_json_path(self.path@) || !path_exists || path_is_dir,
                    Error::ArgsConflict(_) => spec_is_json_path(self.path@) && path_exists
                        && !path_is_dir && self.decryption_password is Some && self.format
                        != Format::Lprs,
                    _ => false,
                },
            },
    {
        if !is_json_path(self.path.as_str()) {
            return Err(Error::Io("the import file must be a json file".to_owned()));
        }
        if !path_exists {
            return Err(Error::Io("the import file was not found".to_owned()));
        }
        if path_is_dir {
            return Err(Error::Io("the import file is a directory".to_owned()));
        }
        if self.decryption_password.is_some() && self.format != Format::Lprs {
            return Err(
                Error::ArgsConflict(
                    "You only can to use the decryption password with `lprs` format".to_owned(),
                ),
            );
        }
        Ok(())
    }
}

/// Change the master password: the records are re-encrypted with the new
/// key on the next save.
#[derive(Clone, Debug)]
pub struct ChangeMasterPassword {
    /// The new master password; prompted for when absent.
    pub new_password: Option<String>,
}

/// The commands of the vault manager.
#[derive(Clone, Debug)]
pub enum Commands {
    /// Add a new record.
    Add(Add),
    /// Remove records.
    Remove(Remove),
    /// List the records and search them.
    List(List),
    /// Wipe the vaults file.
    Clean(Clean),
    /// Edit a record.
    Edit(Edit),
    /// Generate a password.
    Gen(Gen),
    /// Print a record or one field of it.
    Get(Get),
    /// Export the records.
    Export(Export),
    /// Import records.
    Import(Import),
    /// Re-encrypt the store under a new master password.
    ChangeMasterPassword(ChangeMasterPassword),
}

impl Commands {
    /// Whether the command works on the store at all: cleaning truncates
    /// the file without reading it, and generation needs no store.
    pub fn needs_vault_manager(&self) -> (r: bool)
        ensures
            r == !(self is Clean || self is Gen),
    {
        !(matches!(self, Commands::Clean(_)) || matches!(self, Commands::Gen(_)))
    }

    /// Validate the arguments of the active command; commands without
    /// argument rules always pass.
    pub fn validate_args(&self) -> (r: Result<(), Error>)
        ensures
            match self {
                Commands::Add(c) => validate_fields_post(
                    r,
                    !c.force && c.spec_is_empty(),
                    c.force,
                    c.custom_fields.deep_view(),
                ),
                Commands::Edit(c) => validate_fields_post(
                    r,
                    !c.force && c.spec_is_empty(),
                    c.force,
                    c.custom_fields.deep_view(),
                ),
                Commands::List(c) => match r {
                    Ok(()) => !(c.regex && c.filter is None),
                    Err(e) => c.regex && c.filter is None && e is ArgsConflict,
                },
                _ => r is Ok,
            },
    {
        match self {
            Commands::Add(c) => c.validate_args(),
            Commands::Edit(c) => c.validate_args(),
            Commands::List(c) => c.validate_args(),
            _ => Ok(()),
        }
    }
}

/// The command-line surface: the chosen vaults file, verbosity, the
/// master password when given inline, and the command to run.
#[derive(Clone, Debug)]
pub struct Cli {
    /// The vaults file to use instead of the default one.
    pub vaults_file: Option<String>,
    /// Show the logs.
    pub verbose: bool,
    /// The master password; prompted for when absent.
    pub master_password: Option<String>,
    /// The command to run.
    pub command: Commands,
}

/// The compiled filter type of the regex engine.
#[verifier::external_type_specification]
#[verifier::external_body]
pub struct ExRegex(regex::Regex);

/// The error type of the regex engine.
#[verifier::external_type_specification]
#[verifier::external_body]
pub struct ExRegexError(RegexError);

/// Whether the regex engine accepts a pattern: a function of the pattern
/// alone.
pub uninterp spec fn regex_valid_of(pattern: Seq<char>) -> bool;

/// The regex engine's verdict on a pattern and a text: a function of the
/// two alone.
pub uninterp spec fn regex_match_of(pattern: Seq<char>, text: Seq<char>) -> bool;

/// Relies on `regex::Regex::new`: whether a pattern compiles depends on
/// the pattern alone.
#[verifier::external_body]
fn regex_new(pattern: &str) -> (r: Result<regex::Regex, RegexError>)
    ensures
        r is Ok <==> regex_valid_of(pattern@),
{
    regex::Regex::new(pattern)
}

/// A compiled filter, kept beside the pattern it was compiled from. The
/// fields are private and paired only by [`Matcher::compile`], so the
/// contract of [`Matcher::is_match`] speaks of the pattern the engine
/// really holds.
pub struct Matcher {
    re: regex::Regex,
    pattern: String,
}

impl Matcher {
    /// The pattern this matcher was compiled from.
    pub closed spec fn spec_pattern(self) -> Seq<char> {
        self.pattern@
    }

    /// Compile a pattern into a matcher; fails exactly when the engine
    /// rejects the pattern, with the engine's message.
    pub fn compile(pattern: &str) -> (r: Result<Matcher, Error>)
        ensures
            match r {
                Ok(m) => regex_valid_of(pattern@) && m.spec_pattern() == pattern@,
                Err(e) => !regex_valid_of(pattern@) && e is InvalidRegex,
            },
    {
        match regex_new(pattern) {
            Ok(re) => Ok(Matcher { re, pattern: pattern.to_owned() }),
            Err(e) => Err(Error::InvalidRegex(regex_error_message(&e))),
        }
    }

    /// Relies on `regex::Regex::is_match`: the verdict depends on the
    /// compiled pattern and the text alone. The private fields are paired
    /// only by [`Matcher::compile`], so `re` holds exactly the compiled
    /// `pattern`.
    #[verifier::external_body]
    pub fn is_match(&self, text: &str) -> (r: bool)
        ensures
            r == regex_match_of(self.spec_pattern(), text@),
    {
        self.re.is_match(text)
    }
}

/// What `regex::escape` returns: it depends on the characters alone.
pub uninterp spec fn regex_escape_of(s: Seq<char>) -> Seq<char>;

/// Relies on `regex::escape`: the result depends on the characters alone.
#[verifier::external_body]
fn regex_escape(s: &str) -> (r: String)
    ensures
        r@ == regex_escape_of(s@),
{
    regex::escape(s)
}

/// Relies on the `Display` impl of `regex::Error` for the user message.
#[verifier::external_body]
fn regex_error_message(e: &RegexError) -> String {
    e.to_string()
}

/// Whether a record matches a filter pattern: the pattern against the
/// lowercased name, username, service or note.
pub open spec fn spec_vault_matches(pattern: Seq<char>, v: crate::vault::VaultView) -> bool {
    ||| regex_match_of(pattern, text::lower_of(v.name))
    ||| (v.username matches Some(u) && regex_match_of(pattern, text::lower_of(u)))
    ||| (v.service matches Some(sv) && regex_match_of(pattern, text::lower_of(sv)))
    ||| (v.note matches Some(n) && regex_match_of(pattern, text::lower_of(n)))
}

/// Whether the filter matches any of the record's text fields, each
/// lowercased as the pattern was.
fn vault_matches(matcher: &Matcher, vault: &Vault) -> (r: bool)
    ensures
        r == spec_vault_matches(matcher.spec_pattern(), vault@),
{
    if matcher.is_match(text::to_lowercase(vault.name.as_str()).as_str()) {
        return true;
    }
    match &vault.username {
        Some(u) => {
            if matcher.is_match(text::to_lowercase(u.as_str()).as_str()) {
                return true;
            }
        },
        None => {},
    }
    match &vault.service {
        Some(sv) => {
            if matcher.is_match(text::to_lowercase(sv.as_str()).as_str()) {
                return true;
            }
        },
        None => {},
    }
    match &vault.note {
        Some(n) => {
            if matcher.is_match(text::to_lowercase(n.as_str()).as_str()) {
                return true;
            }
        },
        None => {},
    }
    false
}

/// Keep exactly the positions whose flag is set, in ascending order.
pub fn select_indices(flags: &Vec<bool>) -> (r: Vec<usize>)
    ensures
        forall|k: int| 0 <= k < r@.len() ==> #[trigger] r@[k] < flags@.len() && flags@[r@[k] as int],
        forall|a: int, b: int| 0 <= a < b < r@.len() ==> r@[a] < r@[b],
        forall|i: int| 0 <= i < flags@.len() && flags@[i] ==> r@.contains(i as usize),
{
    let mut out: Vec<usize> = Vec::new();
    let mut i: usize = 0;
    while i < flags.len()
        invariant
            0 <= i <= flags@.len(),
            forall|k: int|
                0 <= k < out@.len() ==> #[trigger] out@[k] < i && flags@[out@[k] as int],
            forall|a: int, b: int| 0 <= a < b < out@.len() ==> out@[a] < out@[b],
            forall|j: int| 0 <= j < i && flags@[j] ==> out@.contains(j as usize),
        decreases flags@.len() - i,
    {
        if flags[i] {
            let ghost before = out@;
            out.push(i);
            proof {
                assert(out@ == before.push(i as usize));
                assert forall|j: int| 0 <= j < i + 1 && flags@[j] implies out@.contains(
                    j as usize,
                ) by {
                    if j < i {
                        assert(before.contains(j as usize));
                        let k = choose|k: int| 0 <= k < before.len() && before[k] == j as usize;
                        assert(out@[k] == j as usize);
                    } else {
                        assert(out@[out@.len() - 1] == j as usize);
                    }
                }
            }
        }
        i = i + 1;
    }
    out
}

impl List {
    /// The pattern the filter compiles: the filter text itself under the
    /// regular-expression flag, else the escaped filter wrapped so that
    /// it matches as a substring; lowercased either way, as the record
    /// fields are before matching. An absent filter is the empty text.
    pub open spec fn spec_pattern(&self) -> Seq<char> {
        let raw = match self.filter {
            Some(f) => f@,
            None => Seq::<char>::empty(),
        };
        if self.regex {
            text::lower_of(raw)
        } else {
            text::lower_of(".*"@ + regex_escape_of(raw) + ".*"@)
        }
    }

    /// The positions of the records the filter keeps, in order: exactly
    /// those whose lowercased name, username, service or note the
    /// lowercased pattern matches — complete and sound against the
    /// engine's verdict — ascending. Fails exactly when the engine
    /// rejects the pattern.
    pub fn filter_vaults(&self, vaults: &Vec<Vault>) -> (r: Result<Vec<usize>, Error>)
        ensures
            match r {
                Ok(indices) => {
                    &&& regex_valid_of(self.spec_pattern())
                    &&& forall|k: int|
                        0 <= k < indices@.len() ==> #[trigger] indices@[k] < vaults@.len()
                    &&& forall|a: int, b: int|
                        0 <= a < b < indices@.len() ==> indices@[a] < indices@[b]
                    &&& forall|k: int|
                        0 <= k < indices@.len() ==> spec_vault_matches(
                            self.spec_pattern(),
                            vaults@[#[trigger] indices@[k] as int]@,
                        )
                    &&& forall|i: int|
                        0 <= i < vaults@.len() && #[trigger] spec_vault_matches(
                            self.spec_pattern(),
                            vaults@[i]@,
                        ) ==> indices@.contains(i as usize)
                },
                Err(e) => !regex_valid_of(self.spec_pattern()) && e is InvalidRegex,
            },
    {
        let ghost pattern = self.spec_pattern();
        let raw_pattern = if self.regex {
            match &self.filter {
                Some(f) => f.clone(),
                None => String::new(),
            }
        } else {
            let escaped = regex_escape(
                match &self.filter {
                    Some(f) => f.as_str(),
                    None => "",
                },
            );
            proof {
                reveal_strlit("");
                assert(""@ =~= Seq::<char>::empty());
            }
            let mut p = String::from_str(".*");
            p.append(escaped.as_str());
            p.append(".*");
            p
        };
        let lowered = text::to_lowercase(raw_pattern.as_str());
        proof {
            assert(lowered@ == pattern);
        }
        let matcher = match Matcher::compile(lowered.as_str()) {
            Ok(m) => m,
            Err(e) => return Err(e),
        };
        let mut flags: Vec<bool> = Vec::new();
        let mut i: usize = 0;
        while i < vaults.len()
            invariant
                pattern == self.spec_pattern(),
                matcher.spec_pattern() == pattern,
                0 <= i <= vaults@.len(),
                flags@.len() == i,
                forall|j: int|
                    0 <= j < i ==> #[trigger] flags@[j] == spec_vault_matches(
                        pattern,
                        vaults@[j]@,
                    ),
            decreases vaults@.len() - i,
        {
            let m = vault_matches(&matcher, &vaults[i]);
            flags.push(m);
            i = i + 1;
        }
        let indices = select_indices(&flags);
        proof {
            assert forall|k: int| 0 <= k < indices@.len() implies spec_vault_matches(
                pattern,
                vaults@[#[trigger] indices@[k] as int]@,
            ) by {
                assert(flags@[indices@[k] as int]);
            }
            assert forall|i2: int|
                0 <= i2 < vaults@.len() && #[trigger] spec_vault_matches(pattern, vaults@[i2]@)
                implies indices@.contains(i2 as usize) by {
                assert(flags@[i2]);
            }
        }
        Ok(indices)
    }
}

} // verus!
