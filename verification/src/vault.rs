//! The vault record data model: one secret entry, its invariants, and its
//! field-level encryption transform.

use vstd::prelude::*;

use crate::cipher;
use crate::cipher::TotpHash;
use crate::errors::Error;
use crate::text;
use vstd::string::StringExecFns;

verus! {

/// The vaults interchange format.
#[derive(Clone, Copy, Debug, PartialEq, Eq, Structural)]
pub enum Format {
    /// The native format: the result of serializing the records themselves.
    Lprs,
    /// The foreign vault-manager format.
    BitWarden,
}

/// One secret entry: a required name, optional credential fields, an
/// optional TOTP seed with its hash choice, and custom key/value fields.
#[derive(Debug)]
pub struct Vault {
    /// The name of the vault.
    pub name: String,
    /// The username.
    pub username: Option<String>,
    /// The password.
    pub password: Option<String>,
    /// The service name, e.g. the website URL.
    pub service: Option<String>,
    /// A note attached to the vault.
    pub note: Option<String>,
    /// The TOTP seed, valid base32 when present.
    pub totp_secret: Option<String>,
    /// The hash function the TOTP code is derived with.
    pub totp_hash: TotpHash,
    /// The custom fields, in insertion order, keys unique.
    pub custom_fields: Vec<(String, String)>,
}

/// The mathematical model of one record.
pub struct VaultView {
    /// The name.
    pub name: Seq<char>,
    /// The username.
    pub username: Option<Seq<char>>,
    /// The password.
    pub password: Option<Seq<char>>,
    /// The service.
    pub service: Option<Seq<char>>,
    /// The note.
    pub note: Option<Seq<char>>,
    /// The TOTP seed.
    pub totp_secret: Option<Seq<char>>,
    /// The TOTP hash choice.
    pub totp_hash: TotpHash,
    /// The custom fields, in order.
    pub custom_fields: Seq<(Seq<char>, Seq<char>)>,
}

impl View for Vault {
    type V = VaultView;

    open spec fn view(&self) -> VaultView {
        VaultView {
            name: self.name@,
            username: self.username.deep_view(),
            password: self.password.deep_view(),
            service: self.service.deep_view(),
            note: self.note.deep_view(),
            totp_secret: self.totp_secret.deep_view(),
            totp_hash: self.totp_hash,
            custom_fields: self.custom_fields.deep_view(),
        }
    }
}

impl Clone for Vault {
    /// A clone models the same record, field for field.
    fn clone(&self) -> (r: Self)
        ensures
            r@ == self@,
    {
        let mut custom_fields: Vec<(String, String)> = Vec::new();
        let mut i: usize = 0;
        while i < self.custom_fields.len()
            invariant
                0 <= i <= self.custom_fields@.len(),
                custom_fields@ == self.custom_fields@.subrange(0, i as int),
            decreases self.custom_fields@.len() - i,
        {
            custom_fields.push((self.custom_fields[i].0.clone(), self.custom_fields[i].1.clone()));
            proof {
                assert(custom_fields@ =~= self.custom_fields@.subrange(0, i + 1));
            }
            i = i + 1;
        }
        proof {
            assert(self.custom_fields@.subrange(0, self.custom_fields@.len() as int)
                =~= self.custom_fields@);
        }
        let r = Vault {
            name: self.name.clone(),
            username: clone_opt(&self.username),
            password: clone_opt(&self.password),
            service: clone_opt(&self.service),
            note: clone_opt(&self.note),
            totp_secret: clone_opt(&self.totp_secret),
            totp_hash: self.totp_hash,
            custom_fields,
        };
        r
    }
}

impl Format {
    /// The format's name, as the command line spells it.
    pub fn as_str(&self) -> (r: &'static str)
        ensures
            match self {
                Format::Lprs => r@ == "lprs"@,
                Format::BitWarden => r@ == "bitwarden"@,
            },
    {
        match self {
            Format::Lprs => "lprs",
            Format::BitWarden => "bitwarden",
        }
    }
}

/// A copy of an optional text field, equal to the original.
fn clone_opt(field: &Option<String>) -> (r: Option<String>)
    ensures
        r == *field,
{
    match field {
        Some(s) => Some(s.clone()),
        None => None,
    }
}

impl VaultView {
    /// A record is well formed when its custom-field keys are unique.
    pub open spec fn wf(self) -> bool {
        unique_keys(self.custom_fields)
    }

    /// Whether every optional field and the custom fields are absent.
    pub open spec fn spec_is_empty(self) -> bool {
        &&& self.username is None
        &&& self.password is None
        &&& self.service is None
        &&& self.note is None
        &&& self.totp_secret is None
        &&& self.custom_fields.len() == 0
    }

    /// The one-line summary used by interactive selection.
    pub open spec fn spec_list_name(self) -> Seq<char> {
        self.name + (match self.username {
            Some(u) => " <"@ + u + ">"@,
            None => Seq::<char>::empty(),
        }) + (match self.service {
            Some(s) => " ("@ + s + ")"@,
            None => Seq::<char>::empty(),
        }) + (if self.username is None && self.password is None && self.note is Some {
            " *Note"@
        } else {
            Seq::<char>::empty()
        })
    }
}

impl Vault {
    /// Create a new record from its parts.
    pub fn new(
        name: String,
        username: Option<String>,
        password: Option<String>,
        service: Option<String>,
        note: Option<String>,
        custom_fields: Vec<(String, String)>,
        totp_secret: Option<String>,
        totp_hash: TotpHash,
    ) -> (r: Vault)
        ensures
            r@ == (VaultView {
                name: name@,
                username: username.deep_view(),
                password: password.deep_view(),
                service: service.deep_view(),
                note: note.deep_view(),
                totp_secret: totp_secret.deep_view(),
                totp_hash: totp_hash,
                custom_fields: custom_fields.deep_view(),
            }),
    {
        Vault { name, username, password, service, note, totp_secret, totp_hash, custom_fields }
    }

    /// Returns true when the record is empty: every optional field and the
    /// custom fields are absent.
    pub fn is_empty(&self) -> (r: bool)
        ensures
            r == self@.spec_is_empty(),
    {
        self.username.is_none() && self.password.is_none() && self.service.is_none()
            && self.note.is_none() && self.totp_secret.is_none() && self.custom_fields.len() == 0
    }

    /// Return the name of the vault, with the username, the service and a
    /// note-only marker when they are there.
    pub fn list_name(&self) -> (r: String)
        ensures
            r@ == self@.spec_list_name(),
    {
        let mut out = self.name.clone();
        match &self.username {
            Some(username) => {
                out.append(" <");
                out.append(username.as_str());
                out.append(">");
            },
            None => {},
        }
        match &self.service {
            Some(service) => {
                out.append(" (");
                out.append(service.as_str());
                out.append(")");
            },
            None => {},
        }
        if self.username.is_none() && self.password.is_none() && self.note.is_some() {
            out.append(" *Note");
        }
        proof {
            assert(out@ =~= self@.spec_list_name());
        }
        out
    }
}

/// Whether no two fields share a key.
pub open spec fn unique_keys(fields: Seq<(Seq<char>, Seq<char>)>) -> bool {
    forall|i: int, j: int| 0 <= i < j < fields.len() ==> fields[i].0 != fields[j].0
}

/// The first position holding the given key, or the length when none does.
pub open spec fn spec_key_index(fields: Seq<(Seq<char>, Seq<char>)>, key: Seq<char>) -> int
    decreases fields.len(),
{
    if fields.len() == 0 {
        0
    } else if fields[0].0 == key {
        0
    } else {
        1 + spec_key_index(fields.drop_first(), key)
    }
}

/// Whether some field holds the given key.
pub open spec fn spec_has_key(fields: Seq<(Seq<char>, Seq<char>)>, key: Seq<char>) -> bool {
    spec_key_index(fields, key) < fields.len()
}

/// The value stored under a key, when one is.
pub open spec fn spec_get_field(fields: Seq<(Seq<char>, Seq<char>)>, key: Seq<char>) -> Option<
    Seq<char>,
> {
    if spec_has_key(fields, key) {
        Some(fields[spec_key_index(fields, key)].1)
    } else {
        None
    }
}

/// `spec_key_index` is the first match: everything before it misses the
/// key, and it hits the key when it is in range.
pub proof fn lemma_key_index(fields: Seq<(Seq<char>, Seq<char>)>, key: Seq<char>)
    ensures
        0 <= spec_key_index(fields, key) <= fields.len(),
        spec_key_index(fields, key) < fields.len() ==> fields[spec_key_index(fields, key)].0
            == key,
        forall|j: int| 0 <= j < spec_key_index(fields, key) ==> fields[j].0 != key,
    decreases fields.len(),
{
    if fields.len() > 0 && fields[0].0 != key {
        lemma_key_index(fields.drop_first(), key);
        let tail = fields.drop_first();
        assert forall|j: int| 0 <= j < spec_key_index(fields, key) implies fields[j].0 != key by {
            if j > 0 {
                assert(fields[j] == tail[j - 1]);
            }
        }
    }
}

proof fn lemma_key_index_at(fields: Seq<(Seq<char>, Seq<char>)>, key: Seq<char>, i: int)
    requires
        0 <= i <= fields.len(),
        forall|j: int| 0 <= j < i ==> fields[j].0 != key,
        i == fields.len() || fields[i as int].0 == key,
    ensures
        spec_key_index(fields, key) == i,
    decreases i,
{
    if i == 0 {
        if fields.len() > 0 && fields[0].0 != key {
            lemma_key_index(fields.drop_first(), key);
        }
    } else {
        let tail = fields.drop_first();
        assert forall|j: int| 0 <= j < i - 1 implies tail[j].0 != key by {
            assert(tail[j] == fields[j + 1]);
        }
        lemma_key_index_at(tail, key, i - 1);
    }
}

/// Find the position of a custom field by key.
pub fn find_custom_field(fields: &Vec<(String, String)>, key: &str) -> (r: Option<usize>)
    ensures
        match r {
            Some(i) => i == spec_key_index(fields.deep_view(), key@) && i < fields@.len(),
            None => !spec_has_key(fields.deep_view(), key@),
        },
{
    let ghost fv = fields.deep_view();
    let mut i: usize = 0;
    while i < fields.len()
        invariant
            0 <= i <= fields@.len(),
            fv == fields.deep_view(),
            fv.len() == fields@.len(),
            forall|j: int| 0 <= j < i ==> fv[j].0 != key@,
        decreases fields@.len() - i,
    {
        proof {
            assert(fv[i as int] == (fields@[i as int].0@, fields@[i as int].1@));
        }
        if text::str_eq(fields[i].0.as_str(), key) {
            proof {
                lemma_key_index_at(fv, key@, i as int);
            }
            return Some(i);
        }
        i = i + 1;
    }
    proof {
        lemma_key_index_at(fv, key@, fv.len() as int);
    }
    None
}

/// One merge step: add the field under a new key, update it under an
/// existing key, remove it when the new value is empty; an empty value
/// under an absent key changes nothing.
pub open spec fn spec_apply_field(
    fields: Seq<(Seq<char>, Seq<char>)>,
    key: Seq<char>,
    value: Seq<char>,
) -> Seq<(Seq<char>, Seq<char>)> {
    if spec_has_key(fields, key) {
        if value.len() == 0 {
            fields.remove(spec_key_index(fields, key))
        } else {
            fields.update(spec_key_index(fields, key), (key, value))
        }
    } else {
        if value.len() == 0 {
            fields
        } else {
            fields.push((key, value))
        }
    }
}

/// The merge of a whole edit list, applied left to right.
pub open spec fn spec_apply_fields(
    fields: Seq<(Seq<char>, Seq<char>)>,
    edits: Seq<(Seq<char>, Seq<char>)>,
) -> Seq<(Seq<char>, Seq<char>)>
    decreases edits.len(),
{
    if edits.len() == 0 {
        fields
    } else {
        spec_apply_fields(spec_apply_field(fields, edits[0].0, edits[0].1), edits.drop_first())
    }
}

/// One merge step keeps the keys unique.
pub proof fn lemma_apply_field_unique(
    fields: Seq<(Seq<char>, Seq<char>)>,
    key: Seq<char>,
    value: Seq<char>,
)
    requires
        unique_keys(fields),
    ensures
        unique_keys(spec_apply_field(fields, key, value)),
{
    lemma_key_index(fields, key);
    let out = spec_apply_field(fields, key, value);
    if spec_has_key(fields, key) {
        let k = spec_key_index(fields, key);
        if value.len() == 0 {
            assert forall|i: int, j: int| 0 <= i < j < out.len() implies out[i].0 != out[j].0 by {
                let oi = if i < k {
                    i
                } else {
                    i + 1
                };
                let oj = if j < k {
                    j
                } else {
                    j + 1
                };
                assert(out[i] == fields[oi]);
                assert(out[j] == fields[oj]);
            }
        } else {
            assert forall|i: int, j: int| 0 <= i < j < out.len() implies out[i].0 != out[j].0 by {
                if i != k {
                    assert(out[i] == fields[i]);
                }
                if j != k {
                    assert(out[j] == fields[j]);
                }
            }
        }
    } else {
        if value.len() != 0 {
            assert forall|i: int, j: int| 0 <= i < j < out.len() implies out[i].0 != out[j].0 by {
                if j < fields.len() {
                    assert(out[i] == fields[i] && out[j] == fields[j]);
                } else {
                    assert(out[j].0 == key && out[i] == fields[i]);
                }
            }
        }
    }
}

/// The whole merge keeps the keys unique.
pub proof fn lemma_apply_fields_unique(
    fields: Seq<(Seq<char>, Seq<char>)>,
    edits: Seq<(Seq<char>, Seq<char>)>,
)
    requires
        unique_keys(fields),
    ensures
        unique_keys(spec_apply_fields(fields, edits)),
    decreases edits.len(),
{
    if edits.len() > 0 {
        lemma_apply_field_unique(fields, edits[0].0, edits[0].1);
        lemma_apply_fields_unique(spec_apply_field(fields, edits[0].0, edits[0].1), edits.drop_first());
    }
}

/// Apply the edited fields to the vault fields: add a field under a new
/// key, update it under an existing key, and remove it when its new value
/// is the empty string.
pub fn apply_custom_fields(fields: &mut Vec<(String, String)>, edited_fields: Vec<(String, String)>)
    ensures
        final(fields).deep_view() == spec_apply_fields(
            old(fields).deep_view(),
            edited_fields.deep_view(),
        ),
{
    let ghost orig = old(fields).deep_view();
    let ghost edits = edited_fields.deep_view();
    proof {
        assert(edits.subrange(0, edits.len() as int) =~= edits);
    }
    let mut i: usize = 0;
    while i < edited_fields.len()
        invariant
            0 <= i <= edited_fields@.len(),
            edits == edited_fields.deep_view(),
            edits.len() == edited_fields@.len(),
            spec_apply_fields(orig, edits) == spec_apply_fields(
                fields.deep_view(),
                edits.subrange(i as int, edits.len() as int),
            ),
        decreases edited_fields@.len() - i,
    {
        let ghost before = fields.deep_view();
        let ghost rest = edits.subrange(i as int, edits.len() as int);
        let (key, value) = (edited_fields[i].0.clone(), edited_fields[i].1.clone());
        proof {
            assert(edits[i as int] == (edited_fields@[i as int].0@, edited_fields@[i as int].1@));
            assert(rest[0] == edits[i as int]);
        }
        match find_custom_field(fields, key.as_str()) {
            Some(at) => {
                if value.as_str().is_empty() {
                    fields.remove(at);
                } else {
                    fields.remove(at);
                    fields.insert(at, (key, value));
                }
            },
            None => {
                if !value.as_str().is_empty() {
                    fields.push((key, value));
                }
            },
        }
        proof {
            assert(fields.deep_view() =~= spec_apply_field(before, edits[i as int].0, edits[i as int].1));
            assert(rest.drop_first() =~= edits.subrange(i + 1, edits.len() as int));
            assert(spec_apply_fields(before, rest) == spec_apply_fields(
                fields.deep_view(),
                edits.subrange(i + 1, edits.len() as int),
            ));
        }
        i = i + 1;
    }
    proof {
        assert(edits.subrange(edits.len() as int, edits.len() as int) =~= Seq::<
            (Seq<char>, Seq<char>),
        >::empty());
        assert(spec_apply_fields(fields.deep_view(), edits.subrange(edits.len() as int, edits.len() as int))
            == fields.deep_view());
    }
}

/// One record with every text field encrypted. Absent optional fields stay
/// absent; the TOTP hash choice is not a secret and stays plain.
#[derive(Clone, Debug)]
pub struct EncryptedVault {
    /// The encrypted name.
    pub name: Vec<u8>,
    /// The encrypted username.
    pub username: Option<Vec<u8>>,
    /// The encrypted password.
    pub password: Option<Vec<u8>>,
    /// The encrypted service.
    pub service: Option<Vec<u8>>,
    /// The encrypted note.
    pub note: Option<Vec<u8>>,
    /// The encrypted TOTP seed.
    pub totp_secret: Option<Vec<u8>>,
    /// The TOTP hash choice.
    pub totp_hash: TotpHash,
    /// The custom fields, each key and value encrypted.
    pub custom_fields: Vec<(Vec<u8>, Vec<u8>)>,
}

/// The mathematical model of one encrypted record.
pub struct EncryptedVaultView {
    /// The encrypted name.
    pub name: Seq<u8>,
    /// The encrypted username.
    pub username: Option<Seq<u8>>,
    /// The encrypted password.
    pub password: Option<Seq<u8>>,
    /// The encrypted service.
    pub service: Option<Seq<u8>>,
    /// The encrypted note.
    pub note: Option<Seq<u8>>,
    /// The encrypted TOTP seed.
    pub totp_secret: Option<Seq<u8>>,
    /// The TOTP hash choice.
    pub totp_hash: TotpHash,
    /// The custom fields.
    pub custom_fields: Seq<(Seq<u8>, Seq<u8>)>,
}

/// The model of an optional byte field.
pub open spec fn opt_bytes_view(field: Option<Vec<u8>>) -> Option<Seq<u8>> {
    match field {
        Some(v) => Some(v@),
        None => None,
    }
}

/// The model of a list of encrypted key/value pairs.
pub open spec fn pairs_bytes_view(fields: Seq<(Vec<u8>, Vec<u8>)>) -> Seq<(Seq<u8>, Seq<u8>)> {
    Seq::new(fields.len(), |i: int| (fields[i].0@, fields[i].1@))
}

impl View for EncryptedVault {
    type V = EncryptedVaultView;

    open spec fn view(&self) -> EncryptedVaultView {
        EncryptedVaultView {
            name: self.name@,
            username: opt_bytes_view(self.username),
            password: opt_bytes_view(self.password),
            service: opt_bytes_view(self.service),
            note: opt_bytes_view(self.note),
            totp_secret: opt_bytes_view(self.totp_secret),
            totp_hash: self.totp_hash,
            custom_fields: pairs_bytes_view(self.custom_fields@),
        }
    }
}

/// What decrypting one encrypted text field under a key yields: the bytes
/// must decrypt and the plaintext must be valid text.
pub open spec fn spec_decrypt_text(key: Seq<u8>, blob: Seq<u8>) -> Option<Seq<char>> {
    match cipher::spec_decrypt(key, blob) {
        Some(b) => text::utf8_decode_of(b),
        None => None,
    }
}

/// Whether an optional encrypted field decrypts (an absent field does).
pub open spec fn spec_opt_decrypts(key: Seq<u8>, field: Option<Seq<u8>>) -> bool {
    match field {
        None => true,
        Some(b) => spec_decrypt_text(key, b) is Some,
    }
}

/// The decryption of an optional field; absent stays absent.
pub open spec fn spec_decrypt_opt(key: Seq<u8>, field: Option<Seq<u8>>) -> Option<Seq<char>> {
    match field {
        None => None,
        Some(b) => Some(spec_decrypt_text(key, b)->Some_0),
    }
}

/// Whether every key and value of the encrypted custom fields decrypts.
pub open spec fn spec_fields_decrypt(key: Seq<u8>, fields: Seq<(Seq<u8>, Seq<u8>)>) -> bool {
    forall|i: int|
        0 <= i < fields.len() ==> spec_decrypt_text(key, #[trigger] fields[i].0) is Some
            && spec_decrypt_text(key, fields[i].1) is Some
}

/// The decryption of one encrypted custom field.
pub open spec fn spec_decrypt_pair(key: Seq<u8>, pair: (Seq<u8>, Seq<u8>)) -> (
    Seq<char>,
    Seq<char>,
) {
    (spec_decrypt_text(key, pair.0)->Some_0, spec_decrypt_text(key, pair.1)->Some_0)
}

/// What decrypting a whole record under a key yields. The record is
/// all-or-nothing: when any field fails, the whole record fails, since a
/// partially decryptable record almost always means a wrong master key.
pub open spec fn spec_decrypt_vault(key: Seq<u8>, ev: EncryptedVaultView) -> Option<VaultView> {
    if spec_decrypt_text(key, ev.name) is Some && spec_opt_decrypts(key, ev.username)
        && spec_opt_decrypts(key, ev.password) && spec_opt_decrypts(key, ev.service)
        && spec_opt_decrypts(key, ev.note) && spec_opt_decrypts(key, ev.totp_secret)
        && spec_fields_decrypt(key, ev.custom_fields) {
        Some(
            VaultView {
                name: spec_decrypt_text(key, ev.name)->Some_0,
                username: spec_decrypt_opt(key, ev.username),
                password: spec_decrypt_opt(key, ev.password),
                service: spec_decrypt_opt(key, ev.service),
                note: spec_decrypt_opt(key, ev.note),
                totp_secret: spec_decrypt_opt(key, ev.totp_secret),
                totp_hash: ev.totp_hash,
                custom_fields: ev.custom_fields.map_values(
                    |p: (Seq<u8>, Seq<u8>)| spec_decrypt_pair(key, p),
                ),
            },
        )
    } else {
        None
    }
}

/// Encrypt one text field: the result decrypts back to it under the key.
pub fn encrypt_text(master_password: &[u8; 32], s: &str) -> (r: Vec<u8>)
    ensures
        spec_decrypt_text(master_password@, r@) == Some(s@),
{
    let bytes = text::str_to_bytes(s);
    cipher::encrypt(master_password, bytes.as_slice())
}

/// Decrypt one text field. Any failure is reported as the one generic
/// decryption error, leaking nothing about its cause.
pub fn decrypt_text(master_password: &[u8; 32], blob: &Vec<u8>) -> (r: Result<String, Error>)
    ensures
        match r {
            Ok(s) => spec_decrypt_text(master_password@, blob@) == Some(s@),
            Err(e) => spec_decrypt_text(master_password@, blob@) is None && e
                == Error::Decryption,
        },
{
    match cipher::decrypt(master_password, blob.as_slice()) {
        Ok(bytes) => match text::string_from_utf8(bytes) {
            Ok(s) => Ok(s),
            Err(()) => Err(Error::Decryption),
        },
        Err(_) => Err(Error::Decryption),
    }
}

fn encrypt_opt_text(master_password: &[u8; 32], field: &Option<String>) -> (r: Option<Vec<u8>>)
    ensures
        spec_opt_decrypts(master_password@, opt_bytes_view(r)),
        spec_decrypt_opt(master_password@, opt_bytes_view(r)) == field.deep_view(),
{
    match field {
        Some(s) => Some(encrypt_text(master_password, s.as_str())),
        None => None,
    }
}

fn decrypt_opt_text(master_password: &[u8; 32], field: &Option<Vec<u8>>) -> (r: Result<
    Option<String>,
    Error,
>)
    ensures
        match r {
            Ok(o) => spec_opt_decrypts(master_password@, opt_bytes_view(*field)) && o.deep_view()
                == spec_decrypt_opt(master_password@, opt_bytes_view(*field)),
            Err(e) => !spec_opt_decrypts(master_password@, opt_bytes_view(*field)) && e
                == Error::Decryption,
        },
{
    match field {
        Some(blob) => match decrypt_text(master_password, blob) {
            Ok(s) => Ok(Some(s)),
            Err(e) => Err(e),
        },
        None => Ok(None),
    }
}

impl Vault {
    /// Apply the cipher independently to the name and to each present
    /// field and custom-field key/value pair. Decrypting the result under
    /// the same key returns this record, field for field.
    pub fn encrypt(&self, master_password: &[u8; 32]) -> (r: EncryptedVault)
        ensures
            spec_decrypt_vault(master_password@, r@) == Some(self@),
    {
        let ghost key = master_password@;
        let mut custom_fields: Vec<(Vec<u8>, Vec<u8>)> = Vec::new();
        let mut i: usize = 0;
        while i < self.custom_fields.len()
            invariant
                key == master_password@,
                0 <= i <= self.custom_fields@.len(),
                custom_fields@.len() == i,
                spec_fields_decrypt(key, pairs_bytes_view(custom_fields@)),
                forall|j: int|
                    0 <= j < i ==> spec_decrypt_pair(
                        key,
                        #[trigger] pairs_bytes_view(custom_fields@)[j],
                    ) == self.custom_fields.deep_view()[j],
            decreases self.custom_fields@.len() - i,
        {
            let ghost before = pairs_bytes_view(custom_fields@);
            let ek = encrypt_text(master_password, self.custom_fields[i].0.as_str());
            let ev = encrypt_text(master_password, self.custom_fields[i].1.as_str());
            let ghost ekv = ek@;
            let ghost evv = ev@;
            custom_fields.push((ek, ev));
            proof {
                assert(pairs_bytes_view(custom_fields@) =~= before.push((ekv, evv)));
                assert(self.custom_fields.deep_view()[i as int] =~~= (
                    self.custom_fields@[i as int].0@,
                    self.custom_fields@[i as int].1@,
                ));
                assert forall|j: int| 0 <= j < i + 1 implies spec_decrypt_text(
                    key,
                    #[trigger] pairs_bytes_view(custom_fields@)[j].0,
                ) is Some && spec_decrypt_text(
                    key,
                    pairs_bytes_view(custom_fields@)[j].1,
                ) is Some && spec_decrypt_pair(key, pairs_bytes_view(custom_fields@)[j])
                    == self.custom_fields.deep_view()[j] by {
                    if j < i {
                        assert(pairs_bytes_view(custom_fields@)[j] == before[j]);
                        assert(spec_decrypt_text(key, before[j].0) is Some);
                        assert(spec_decrypt_text(key, before[j].1) is Some);
                        assert(spec_decrypt_pair(key, before[j])
                            == self.custom_fields.deep_view()[j]);
                    } else {
                        assert(pairs_bytes_view(custom_fields@)[j] == (ekv, evv));
                        assert(spec_decrypt_text(key, ekv) is Some);
                        assert(spec_decrypt_text(key, evv) is Some);
                        assert(spec_decrypt_text(key, ekv)
                            == Some(self.custom_fields@[i as int].0@));
                        assert(spec_decrypt_text(key, evv)
                            == Some(self.custom_fields@[i as int].1@));
                        assert(spec_decrypt_pair(key, (ekv, evv)) == (
                            self.custom_fields@[i as int].0@,
                            self.custom_fields@[i as int].1@,
                        ));
                    }
                }
            }
            i = i + 1;
        }
        let out = EncryptedVault {
            name: encrypt_text(master_password, self.name.as_str()),
            username: encrypt_opt_text(master_password, &self.username),
            password: encrypt_opt_text(master_password, &self.password),
            service: encrypt_opt_text(master_password, &self.service),
            note: encrypt_opt_text(master_password, &self.note),
            totp_secret: encrypt_opt_text(master_password, &self.totp_secret),
            totp_hash: self.totp_hash,
            custom_fields,
        };
        proof {
            assert(out@.custom_fields.map_values(|p: (Seq<u8>, Seq<u8>)| spec_decrypt_pair(key, p))
                =~~= self@.custom_fields);
        }
        out
    }

    /// The inverse of [`Vault::encrypt`], field by field; fails with the
    /// generic decryption error when any field fails.
    pub fn decrypt(encrypted: &EncryptedVault, master_password: &[u8; 32]) -> (r: Result<
        Vault,
        Error,
    >)
        ensures
            match r {
                Ok(v) => spec_decrypt_vault(master_password@, encrypted@) == Some(v@),
                Err(e) => spec_decrypt_vault(master_password@, encrypted@) is None && e
                    == Error::Decryption,
            },
    {
        let ghost key = master_password@;
        let name = match decrypt_text(master_password, &encrypted.name) {
            Ok(x) => x,
            Err(e) => return Err(e),
        };
        let username = match decrypt_opt_text(master_password, &encrypted.username) {
            Ok(x) => x,
            Err(e) => return Err(e),
        };
        let password = match decrypt_opt_text(master_password, &encrypted.password) {
            Ok(x) => x,
            Err(e) => return Err(e),
        };
        let service = match decrypt_opt_text(master_password, &encrypted.service) {
            Ok(x) => x,
            Err(e) => return Err(e),
        };
        let note = match decrypt_opt_text(master_password, &encrypted.note) {
            Ok(x) => x,
            Err(e) => return Err(e),
        };
        let totp_secret = match decrypt_opt_text(master_password, &encrypted.totp_secret) {
            Ok(x) => x,
            Err(e) => return Err(e),
        };
        let mut custom_fields: Vec<(String, String)> = Vec::new();
        let mut i: usize = 0;
        while i < encrypted.custom_fields.len()
            invariant
                key == master_password@,
                0 <= i <= encrypted.custom_fields@.len(),
                custom_fields@.len() == i,
                forall|j: int|
                    0 <= j < i ==> spec_decrypt_text(
                        key,
                        #[trigger] pairs_bytes_view(encrypted.custom_fields@)[j].0,
                    ) is Some && spec_decrypt_text(
                        key,
                        pairs_bytes_view(encrypted.custom_fields@)[j].1,
                    ) is Some,
                forall|j: int|
                    0 <= j < i ==> #[trigger] custom_fields.deep_view()[j] == spec_decrypt_pair(
                        key,
                        pairs_bytes_view(encrypted.custom_fields@)[j],
                    ),
            decreases encrypted.custom_fields@.len() - i,
        {
            let ghost before = custom_fields.deep_view();
            let ghost pair = pairs_bytes_view(encrypted.custom_fields@)[i as int];
            proof {
                assert(pair == (
                    encrypted.custom_fields@[i as int].0@,
                    encrypted.custom_fields@[i as int].1@,
                ));
            }
            let k = match decrypt_text(master_password, &encrypted.custom_fields[i].0) {
                Ok(x) => x,
                Err(e) => {
                    proof {
                        assert(spec_decrypt_text(key, pair.0) is None);
                        assert(!spec_fields_decrypt(key, encrypted@.custom_fields));
                    }
                    return Err(e);
                },
            };
            let v = match decrypt_text(master_password, &encrypted.custom_fields[i].1) {
                Ok(x) => x,
                Err(e) => {
                    proof {
                        assert(spec_decrypt_text(key, pair.1) is None);
                        assert(!spec_fields_decrypt(key, encrypted@.custom_fields));
                    }
                    return Err(e);
                },
            };
            custom_fields.push((k, v));
            proof {
                assert(custom_fields.deep_view() =~~= before.push((k@, v@)));
                assert forall|j: int| 0 <= j < i + 1 implies spec_decrypt_text(
                    key,
                    #[trigger] pairs_bytes_view(encrypted.custom_fields@)[j].0,
                ) is Some && spec_decrypt_text(
                    key,
                    pairs_bytes_view(encrypted.custom_fields@)[j].1,
                ) is Some && custom_fields.deep_view()[j] == spec_decrypt_pair(
                    key,
                    pairs_bytes_view(encrypted.custom_fields@)[j],
                ) by {
                    if j < i {
                        assert(custom_fields.deep_view()[j] == before[j]);
                    } else {
                        assert(custom_fields.deep_view()[j] == (k@, v@));
                    }
                }
            }
            i = i + 1;
        }
        let out = Vault {
            name,
            username,
            password,
            service,
            note,
            totp_secret,
            totp_hash: encrypted.totp_hash,
            custom_fields,
        };
        proof {
            assert(encrypted@.custom_fields.map_values(
                |p: (Seq<u8>, Seq<u8>)| spec_decrypt_pair(key, p),
            ) =~~= out@.custom_fields);
        }
        Ok(out)
    }
}

/// What decrypting one portable field yields: the text must be base64,
/// the bytes must decrypt, and the plaintext must be valid text.
pub open spec fn spec_b64_decrypt_text(key: Seq<u8>, s: Seq<char>) -> Option<Seq<char>> {
    match cipher::base64_decode_of(s) {
        None => None,
        Some(bytes) => spec_decrypt_text(key, bytes),
    }
}

/// Whether an optional portable field decrypts (an absent field does).
pub open spec fn spec_b64_opt_decrypts(key: Seq<u8>, field: Option<Seq<char>>) -> bool {
    match field {
        None => true,
        Some(s) => spec_b64_decrypt_text(key, s) is Some,
    }
}

/// The decryption of an optional portable field; absent stays absent.
pub open spec fn spec_b64_decrypt_opt(key: Seq<u8>, field: Option<Seq<char>>) -> Option<Seq<char>> {
    match field {
        None => None,
        Some(s) => Some(spec_b64_decrypt_text(key, s)->Some_0),
    }
}

/// Whether every key and value of portable custom fields decrypts.
pub open spec fn spec_b64_fields_decrypt(key: Seq<u8>, fields: Seq<(Seq<char>, Seq<char>)>) -> bool {
    forall|i: int|
        0 <= i < fields.len() ==> spec_b64_decrypt_text(key, #[trigger] fields[i].0) is Some
            && spec_b64_decrypt_text(key, fields[i].1) is Some
}

/// The decryption of one portable custom field.
pub open spec fn spec_b64_decrypt_pair(key: Seq<u8>, pair: (Seq<char>, Seq<char>)) -> (
    Seq<char>,
    Seq<char>,
) {
    (spec_b64_decrypt_text(key, pair.0)->Some_0, spec_b64_decrypt_text(key, pair.1)->Some_0)
}

/// What importing one portable record under a key yields: all fields or
/// nothing, as with the native form.
pub open spec fn spec_import_vault(key: Seq<u8>, v: VaultView) -> Option<VaultView> {
    if spec_b64_decrypt_text(key, v.name) is Some && spec_b64_opt_decrypts(key, v.username)
        && spec_b64_opt_decrypts(key, v.password) && spec_b64_opt_decrypts(key, v.service)
        && spec_b64_opt_decrypts(key, v.note) && spec_b64_opt_decrypts(key, v.totp_secret)
        && spec_b64_fields_decrypt(key, v.custom_fields) {
        Some(
            VaultView {
                name: spec_b64_decrypt_text(key, v.name)->Some_0,
                username: spec_b64_decrypt_opt(key, v.username),
                password: spec_b64_decrypt_opt(key, v.password),
                service: spec_b64_decrypt_opt(key, v.service),
                note: spec_b64_decrypt_opt(key, v.note),
                totp_secret: spec_b64_decrypt_opt(key, v.totp_secret),
                totp_hash: v.totp_hash,
                custom_fields: v.custom_fields.map_values(
                    |p: (Seq<char>, Seq<char>)| spec_b64_decrypt_pair(key, p),
                ),
            },
        )
    } else {
        None
    }
}

/// Encrypt one portable field: encrypt the text, then base64 the blob.
pub fn b64_encrypt_text(key: &[u8; 32], s: &str) -> (r: String)
    ensures
        spec_b64_decrypt_text(key@, r@) == Some(s@),
{
    let blob = encrypt_text(key, s);
    cipher::base64_encode(blob.as_slice())
}

/// Decrypt one portable field. Any failure is the one generic decryption
/// error.
pub fn b64_decrypt_text(key: &[u8; 32], s: &str) -> (r: Result<String, Error>)
    ensures
        match r {
            Ok(out) => spec_b64_decrypt_text(key@, s@) == Some(out@),
            Err(e) => spec_b64_decrypt_text(key@, s@) is None && e == Error::Decryption,
        },
{
    let blob = match cipher::base64_decode(s) {
        Ok(bytes) => bytes,
        Err(()) => return Err(Error::Decryption),
    };
    decrypt_text(key, &blob)
}

fn b64_encrypt_opt(key: &[u8; 32], field: &Option<String>) -> (r: Option<String>)
    ensures
        spec_b64_opt_decrypts(key@, r.deep_view()),
        spec_b64_decrypt_opt(key@, r.deep_view()) == field.deep_view(),
{
    match field {
        Some(s) => Some(b64_encrypt_text(key, s.as_str())),
        None => None,
    }
}

fn b64_decrypt_opt(key: &[u8; 32], field: &Option<String>) -> (r: Result<Option<String>, Error>)
    ensures
        match r {
            Ok(o) => spec_b64_opt_decrypts(key@, field.deep_view()) && o.deep_view()
                == spec_b64_decrypt_opt(key@, field.deep_view()),
            Err(e) => !spec_b64_opt_decrypts(key@, field.deep_view()) && e == Error::Decryption,
        },
{
    match field {
        Some(s) => match b64_decrypt_text(key, s.as_str()) {
            Ok(out) => Ok(Some(out)),
            Err(e) => Err(e),
        },
        None => Ok(None),
    }
}

impl Vault {
    /// Turn this record into its portable form: every text field
    /// independently encrypted and base64-encoded under the given key.
    /// Importing the result under the same key returns this record.
    pub fn encrypt_portable(&self, encryption_key: &[u8; 32]) -> (r: Vault)
        ensures
            spec_import_vault(encryption_key@, r@) == Some(self@),
    {
        let ghost key = encryption_key@;
        let mut custom_fields: Vec<(String, String)> = Vec::new();
        let mut i: usize = 0;
        while i < self.custom_fields.len()
            invariant
                key == encryption_key@,
                0 <= i <= self.custom_fields@.len(),
                custom_fields@.len() == i,
                forall|j: int|
                    0 <= j < i ==> spec_b64_decrypt_text(
                        key,
                        #[trigger] custom_fields.deep_view()[j].0,
                    ) is Some && spec_b64_decrypt_text(
                        key,
                        custom_fields.deep_view()[j].1,
                    ) is Some && spec_b64_decrypt_pair(key, custom_fields.deep_view()[j])
                        == self.custom_fields.deep_view()[j],
            decreases self.custom_fields@.len() - i,
        {
            let ghost before = custom_fields.deep_view();
            let ek = b64_encrypt_text(encryption_key, self.custom_fields[i].0.as_str());
            let ev = b64_encrypt_text(encryption_key, self.custom_fields[i].1.as_str());
            let ghost ekv = ek@;
            let ghost evv = ev@;
            custom_fields.push((ek, ev));
            proof {
                assert(custom_fields.deep_view() =~~= before.push((ekv, evv)));
                assert(self.custom_fields.deep_view()[i as int] =~~= (
                    self.custom_fields@[i as int].0@,
                    self.custom_fields@[i as int].1@,
                ));
                assert forall|j: int| 0 <= j < i + 1 implies spec_b64_decrypt_text(
                    key,
                    #[trigger] custom_fields.deep_view()[j].0,
                ) is Some && spec_b64_decrypt_text(
                    key,
                    custom_fields.deep_view()[j].1,
                ) is Some && spec_b64_decrypt_pair(key, custom_fields.deep_view()[j])
                    == self.custom_fields.deep_view()[j] by {
                    if j < i {
                        assert(custom_fields.deep_view()[j] == before[j]);
                    } else {
                        assert(custom_fields.deep_view()[j] == (ekv, evv));
                    }
                }
            }
            i = i + 1;
        }
        let out = Vault {
            name: b64_encrypt_text(encryption_key, self.name.as_str()),
            username: b64_encrypt_opt(encryption_key, &self.username),
            password: b64_encrypt_opt(encryption_key, &self.password),
            service: b64_encrypt_opt(encryption_key, &self.service),
            note: b64_encrypt_opt(encryption_key, &self.note),
            totp_secret: b64_encrypt_opt(encryption_key, &self.totp_secret),
            totp_hash: self.totp_hash,
            custom_fields,
        };
        proof {
            assert(out@.custom_fields.map_values(
                |p: (Seq<char>, Seq<char>)| spec_b64_decrypt_pair(key, p),
            ) =~~= self@.custom_fields);
        }
        out
    }

    /// The inverse of [`Vault::encrypt_portable`]: decrypt every field of
    /// a portable record, all or nothing.
    pub fn decrypt_portable(record: &Vault, decryption_key: &[u8; 32]) -> (r: Result<Vault, Error>)
        ensures
            match r {
                Ok(v) => spec_import_vault(decryption_key@, record@) == Some(v@),
                Err(e) => spec_import_vault(decryption_key@, record@) is None && e
                    == Error::Decryption,
            },
    {
        let ghost key = decryption_key@;
        let name = match b64_decrypt_text(decryption_key, record.name.as_str()) {
            Ok(x) => x,
            Err(e) => return Err(e),
        };
        let username = match b64_decrypt_opt(decryption_key, &record.username) {
            Ok(x) => x,
            Err(e) => return Err(e),
        };
        let password = match b64_decrypt_opt(decryption_key, &record.password) {
            Ok(x) => x,
            Err(e) => return Err(e),
        };
        let service = match b64_decrypt_opt(decryption_key, &record.service) {
            Ok(x) => x,
            Err(e) => return Err(e),
        };
        let note = match b64_decrypt_opt(decryption_key, &record.note) {
            Ok(x) => x,
            Err(e) => return Err(e),
        };
        let totp_secret = match b64_decrypt_opt(decryption_key, &record.totp_secret) {
            Ok(x) => x,
            Err(e) => return Err(e),
        };
        let mut custom_fields: Vec<(String, String)> = Vec::new();
        let mut i: usize = 0;
        while i < record.custom_fields.len()
            invariant
                key == decryption_key@,
                0 <= i <= record.custom_fields@.len(),
                custom_fields@.len() == i,
                forall|j: int|
                    0 <= j < i ==> spec_b64_decrypt_text(
                        key,
                        #[trigger] record.custom_fields.deep_view()[j].0,
                    ) is Some && spec_b64_decrypt_text(
                        key,
                        record.custom_fields.deep_view()[j].1,
                    ) is Some,
                forall|j: int|
                    0 <= j < i ==> #[trigger] custom_fields.deep_view()[j] == spec_b64_decrypt_pair(
                        key,
                        record.custom_fields.deep_view()[j],
                    ),
            decreases record.custom_fields@.len() - i,
        {
            let ghost before = custom_fields.deep_view();
            proof {
                assert(record.custom_fields.deep_view()[i as int] =~~= (
                    record.custom_fields@[i as int].0@,
                    record.custom_fields@[i as int].1@,
                ));
            }
            let k = match b64_decrypt_text(decryption_key, record.custom_fields[i].0.as_str()) {
                Ok(x) => x,
                Err(e) => {
                    proof {
                        assert(spec_b64_decrypt_text(
                            key,
                            record@.custom_fields[i as int].0,
                        ) is None);
                        assert(!spec_b64_fields_decrypt(key, record@.custom_fields));
                    }
                    return Err(e);
                },
            };
            let v = match b64_decrypt_text(decryption_key, record.custom_fields[i].1.as_str()) {
                Ok(x) => x,
                Err(e) => {
                    proof {
                        assert(spec_b64_decrypt_text(
                            key,
                            record@.custom_fields[i as int].1,
                        ) is None);
                        assert(!spec_b64_fields_decrypt(key, record@.custom_fields));
                    }
                    return Err(e);
                },
            };
            custom_fields.push((k, v));
            proof {
                assert(custom_fields.deep_view() =~~= before.push((k@, v@)));
                assert forall|j: int| 0 <= j < i + 1 implies spec_b64_decrypt_text(
                    key,
                    #[trigger] record.custom_fields.deep_view()[j].0,
                ) is Some && spec_b64_decrypt_text(
                    key,
                    record.custom_fields.deep_view()[j].1,
                ) is Some && custom_fields.deep_view()[j] == spec_b64_decrypt_pair(
                    key,
                    record.custom_fields.deep_view()[j],
                ) by {
                    if j < i {
                        assert(custom_fields.deep_view()[j] == before[j]);
                    } else {
                        assert(custom_fields.deep_view()[j] == (k@, v@));
                    }
                }
            }
            i = i + 1;
        }
        let out = Vault {
            name,
            username,
            password,
            service,
            note,
            totp_secret,
            totp_hash: record.totp_hash,
            custom_fields,
        };
        proof {
            assert(record@.custom_fields.map_values(
                |p: (Seq<char>, Seq<char>)| spec_b64_decrypt_pair(key, p),
            ) =~~= out@.custom_fields);
        }
        Ok(out)
    }
}

/// The tri-state rule for one editable field: no input leaves it
/// unchanged, a non-empty input replaces it, and an empty input deletes
/// it — so editing an absent field to the empty string is a no-op.
pub open spec fn spec_edit_field(current: Option<Seq<char>>, edit: Option<Seq<char>>) -> Option<
    Seq<char>,
> {
    match edit {
        None => current,
        Some(v) => if v.len() == 0 {
            None
        } else {
            Some(v)
        },
    }
}

/// What an edit does to a whole record: the tri-state rule on each
/// editable field, a plain replacement on the name, and the merge rule on
/// the custom fields. The hash choice moves with the seed edit only when
/// the caller passes one.
pub open spec fn spec_apply_edit(
    v: VaultView,
    name: Option<Seq<char>>,
    username: Option<Seq<char>>,
    password: Option<Seq<char>>,
    service: Option<Seq<char>>,
    note: Option<Seq<char>>,
    totp_secret: Option<Seq<char>>,
    custom_edits: Seq<(Seq<char>, Seq<char>)>,
) -> VaultView {
    VaultView {
        name: match name {
            Some(n) => n,
            None => v.name,
        },
        username: spec_edit_field(v.username, username),
        password: spec_edit_field(v.password, password),
        service: spec_edit_field(v.service, service),
        note: spec_edit_field(v.note, note),
        totp_secret: spec_edit_field(v.totp_secret, totp_secret),
        totp_hash: v.totp_hash,
        custom_fields: spec_apply_fields(v.custom_fields, custom_edits),
    }
}

/// An edit leaves untouched every field it does not name: fields given as
/// `None` keep their value, and an empty edit list keeps the custom
/// fields.
pub proof fn lemma_edit_untouched(
    v: VaultView,
    name: Option<Seq<char>>,
    username: Option<Seq<char>>,
    password: Option<Seq<char>>,
    service: Option<Seq<char>>,
    note: Option<Seq<char>>,
    totp_secret: Option<Seq<char>>,
    custom_edits: Seq<(Seq<char>, Seq<char>)>,
)
    ensures
        name is None ==> spec_apply_edit(
            v, name, username, password, service, note, totp_secret, custom_edits,
        ).name == v.name,
        username is None ==> spec_apply_edit(
            v, name, username, password, service, note, totp_secret, custom_edits,
        ).username == v.username,
        password is None ==> spec_apply_edit(
            v, name, username, password, service, note, totp_secret, custom_edits,
        ).password == v.password,
        service is None ==> spec_apply_edit(
            v, name, username, password, service, note, totp_secret, custom_edits,
        ).service == v.service,
        note is None ==> spec_apply_edit(
            v, name, username, password, service, note, totp_secret, custom_edits,
        ).note == v.note,
        totp_secret is None ==> spec_apply_edit(
            v, name, username, password, service, note, totp_secret, custom_edits,
        ).totp_secret == v.totp_secret,
        custom_edits.len() == 0 ==> spec_apply_edit(
            v, name, username, password, service, note, totp_secret, custom_edits,
        ).custom_fields == v.custom_fields,
        spec_apply_edit(
            v, name, username, password, service, note, totp_secret, custom_edits,
        ).totp_hash == v.totp_hash,
{
}

/// Editing a field to the empty string deletes it, and editing an absent
/// field to the empty string is a no-op: the field stays absent.
pub proof fn lemma_edit_empty_deletes(current: Option<Seq<char>>)
    ensures
        spec_edit_field(current, Some(Seq::<char>::empty())) is None,
        spec_edit_field(None, Some(Seq::<char>::empty())) is None,
{
}

/// What a single custom-field merge step leaves under the edited key: the
/// new value under a non-empty edit, nothing under an empty one.
pub proof fn lemma_apply_field_get(
    fields: Seq<(Seq<char>, Seq<char>)>,
    key: Seq<char>,
    value: Seq<char>,
)
    requires
        unique_keys(fields),
    ensures
        spec_get_field(spec_apply_field(fields, key, value), key) == (if value.len() == 0 {
            None::<Seq<char>>
        } else {
            Some(value)
        }),
{
    lemma_key_index(fields, key);
    let out = spec_apply_field(fields, key, value);
    let k = spec_key_index(fields, key);
    if spec_has_key(fields, key) {
        if value.len() == 0 {
            assert forall|j: int| 0 <= j < out.len() implies #[trigger] out[j].0 != key by {
                if j < k {
                    assert(out[j] == fields[j]);
                } else {
                    assert(out[j] == fields[j + 1]);
                }
            }
            lemma_key_index_at(out, key, out.len() as int);
        } else {
            assert forall|j: int| 0 <= j < k implies #[trigger] out[j].0 != key by {
                assert(out[j] == fields[j]);
            }
            lemma_key_index_at(out, key, k);
        }
    } else {
        if value.len() != 0 {
            assert forall|j: int| 0 <= j < fields.len() implies #[trigger] out[j].0 != key by {
                assert(out[j] == fields[j]);
            }
            lemma_key_index_at(out, key, fields.len() as int);
        }
    }
}

/// A single custom-field merge step touches no other key.
pub proof fn lemma_apply_field_frame(
    fields: Seq<(Seq<char>, Seq<char>)>,
    key: Seq<char>,
    value: Seq<char>,
    other: Seq<char>,
)
    requires
        unique_keys(fields),
        other != key,
    ensures
        spec_get_field(spec_apply_field(fields, key, value), other) == spec_get_field(
            fields,
            other,
        ),
{
    lemma_key_index(fields, key);
    lemma_key_index(fields, other);
    let out = spec_apply_field(fields, key, value);
    let k = spec_key_index(fields, key);
    let m = spec_key_index(fields, other);
    if spec_has_key(fields, key) {
        if value.len() == 0 {
            if m < fields.len() {
                if m < k {
                    assert forall|j: int| 0 <= j < m implies #[trigger] out[j].0 != other by {
                        assert(out[j] == fields[j]);
                    }
                    assert(out[m] == fields[m]);
                    lemma_key_index_at(out, other, m);
                } else {
                    assert(m != k);
                    assert forall|j: int| 0 <= j < m - 1 implies #[trigger] out[j].0 != other by {
                        if j < k {
                            assert(out[j] == fields[j]);
                        } else {
                            assert(out[j] == fields[j + 1]);
                        }
                    }
                    assert(out[m - 1] == fields[m]);
                    lemma_key_index_at(out, other, m - 1);
                }
            } else {
                assert forall|j: int| 0 <= j < out.len() implies #[trigger] out[j].0 != other by {
                    if j < k {
                        assert(out[j] == fields[j]);
                    } else {
                        assert(out[j] == fields[j + 1]);
                    }
                }
                lemma_key_index_at(out, other, out.len() as int);
            }
        } else {
            if m < fields.len() {
                assert(m != k);
                assert forall|j: int| 0 <= j < m implies #[trigger] out[j].0 != other by {
                    if j != k {
                        assert(out[j] == fields[j]);
                    }
                }
                assert(out[m] == fields[m]);
                lemma_key_index_at(out, other, m);
            } else {
                assert forall|j: int| 0 <= j < out.len() implies #[trigger] out[j].0 != other by {
                    if j != k {
                        assert(out[j] == fields[j]);
                    }
                }
                lemma_key_index_at(out, other, out.len() as int);
            }
        }
    } else {
        if value.len() != 0 {
            if m < fields.len() {
                assert forall|j: int| 0 <= j < m implies #[trigger] out[j].0 != other by {
                    assert(out[j] == fields[j]);
                }
                assert(out[m] == fields[m]);
                lemma_key_index_at(out, other, m);
            } else {
                assert forall|j: int| 0 <= j < out.len() implies #[trigger] out[j].0 != other by {
                    if j < fields.len() {
                        assert(out[j] == fields[j]);
                    }
                }
                lemma_key_index_at(out, other, out.len() as int);
            }
        }
    }
}

impl Vault {
    /// Apply an edit to this record: the tri-state rule on each editable
    /// field and the merge rule on the custom fields. A non-empty TOTP
    /// seed must be valid base32; on a malformed one the record is left
    /// untouched and the base32 error is returned.
    pub fn apply_edit(
        &mut self,
        name: Option<String>,
        username: Option<String>,
        password: Option<String>,
        service: Option<String>,
        note: Option<String>,
        totp_secret: Option<String>,
        custom_edits: Vec<(String, String)>,
    ) -> (r: Result<(), Error>)
        ensures
            match r {
                Ok(()) => final(self)@ == spec_apply_edit(
                    old(self)@,
                    name.deep_view(),
                    username.deep_view(),
                    password.deep_view(),
                    service.deep_view(),
                    note.deep_view(),
                    totp_secret.deep_view(),
                    custom_edits.deep_view(),
                ) && (match totp_secret.deep_view() {
                    Some(ts) => ts.len() == 0 || cipher::base32_decode_of(ts) is Some,
                    None => true,
                }),
                Err(e) => *final(self) == *old(self) && e is Base32 && (match totp_secret.deep_view() {
                    Some(ts) => ts.len() > 0 && cipher::base32_decode_of(ts) is None,
                    None => false,
                }),
            },
    {
        match &totp_secret {
            Some(ts) => {
                if !ts.as_str().is_empty() {
                    match cipher::base32_decode(ts.as_str()) {
                        Ok(_) => {},
                        Err(e) => return Err(e),
                    }
                }
            },
            None => {},
        }
        match name {
            Some(n) => {
                self.name = n;
            },
            None => {},
        }
        match username {
            Some(u) => {
                if u.as_str().is_empty() {
                    self.username = None;
                } else {
                    self.username = Some(u);
                }
            },
            None => {},
        }
        match password {
            Some(p) => {
                if p.as_str().is_empty() {
                    self.password = None;
                } else {
                    self.password = Some(p);
                }
            },
            None => {},
        }
        match service {
            Some(sv) => {
                if sv.as_str().is_empty() {
                    self.service = None;
                } else {
                    self.service = Some(sv);
                }
            },
            None => {},
        }
        match note {
            Some(n) => {
                if n.as_str().is_empty() {
                    self.note = None;
                } else {
                    self.note = Some(n);
                }
            },
            None => {},
        }
        match totp_secret {
            Some(ts) => {
                if ts.as_str().is_empty() {
                    self.totp_secret = None;
                } else {
                    self.totp_secret = Some(ts);
                }
            },
            None => {},
        }
        apply_custom_fields(&mut self.custom_fields, custom_edits);
        Ok(())
    }
}

/// The text of the custom fields, one `key: value` line each.
pub open spec fn spec_fields_text(fields: Seq<(Seq<char>, Seq<char>)>) -> Seq<char>
    decreases fields.len(),
{
    if fields.len() == 0 {
        Seq::<char>::empty()
    } else {
        spec_fields_text(fields.drop_last()) + "\n"@ + fields.last().0 + ": "@ + fields.last().1
    }
}

impl VaultView {
    /// The full multi-line text of a record, as shown to the user: the
    /// name line, one line per present field, the note, then the custom
    /// fields.
    pub open spec fn spec_display_text(self) -> Seq<char> {
        "Name: "@ + self.name + (match self.username {
            Some(u) => "\nUsername: "@ + u,
            None => Seq::<char>::empty(),
        }) + (match self.password {
            Some(p) => "\nPassword: "@ + p,
            None => Seq::<char>::empty(),
        }) + (match self.service {
            Some(sv) => "\nService: "@ + sv,
            None => Seq::<char>::empty(),
        }) + (match self.note {
            Some(n) => "\nNote:\n"@ + n,
            None => Seq::<char>::empty(),
        }) + spec_fields_text(self.custom_fields)
    }
}

impl Vault {
    /// The full multi-line text of the record, for display.
    pub fn display_text(&self) -> (r: String)
        ensures
            r@ == self@.spec_display_text(),
    {
        let mut out = String::from_str("Name: ");
        out.append(self.name.as_str());
        match &self.username {
            Some(u) => {
                out.append("\nUsername: ");
                out.append(u.as_str());
            },
            None => {},
        }
        match &self.password {
            Some(p) => {
                out.append("\nPassword: ");
                out.append(p.as_str());
            },
            None => {},
        }
        match &self.service {
            Some(sv) => {
                out.append("\nService: ");
                out.append(sv.as_str());
            },
            None => {},
        }
        match &self.note {
            Some(n) => {
                out.append("\nNote:\n");
                out.append(n.as_str());
            },
            None => {},
        }
        let ghost head = out@;
        proof {
            assert(head =~= "Name: "@ + self@.name + (match self@.username {
                Some(u) => "\nUsername: "@ + u,
                None => Seq::<char>::empty(),
            }) + (match self@.password {
                Some(p) => "\nPassword: "@ + p,
                None => Seq::<char>::empty(),
            }) + (match self@.service {
                Some(sv) => "\nService: "@ + sv,
                None => Seq::<char>::empty(),
            }) + (match self@.note {
                Some(n) => "\nNote:\n"@ + n,
                None => Seq::<char>::empty(),
            }));
        }
        let mut i: usize = 0;
        while i < self.custom_fields.len()
            invariant
                0 <= i <= self.custom_fields@.len(),
                out@ == head + spec_fields_text(self@.custom_fields.subrange(0, i as int)),
            decreases self.custom_fields@.len() - i,
        {
            proof {
                assert(self@.custom_fields[i as int] =~~= (
                    self.custom_fields@[i as int].0@,
                    self.custom_fields@[i as int].1@,
                ));
            }
            out.append("\n");
            out.append(self.custom_fields[i].0.as_str());
            out.append(": ");
            out.append(self.custom_fields[i].1.as_str());
            proof {
                let pre = self@.custom_fields.subrange(0, i + 1);
                assert(pre.drop_last() =~= self@.custom_fields.subrange(0, i as int));
                assert(pre.last() == self@.custom_fields[i as int]);
                assert(out@ =~= head + spec_fields_text(pre));
            }
            i = i + 1;
        }
        proof {
            assert(self@.custom_fields.subrange(0, self@.custom_fields.len() as int)
                =~= self@.custom_fields);
        }
        out
    }

    /// Inject the computed TOTP code into the custom fields under the
    /// reserved prefix, for display only: such fields are never persisted.
    /// With the window's remaining seconds given, they are appended to the
    /// value; without them the value is the bare code.
    pub fn inject_totp_code(&mut self, code: &str, remaining: Option<u8>)
        ensures
            final(self)@.custom_fields == spec_apply_field(
                old(self)@.custom_fields,
                crate::RESERVED_FIELD_PREFIX@ + "TOTP Code"@,
                spec_totp_field_value(code@, remaining),
            ),
            final(self)@.name == old(self)@.name,
            final(self)@.username == old(self)@.username,
            final(self)@.password == old(self)@.password,
            final(self)@.service == old(self)@.service,
            final(self)@.note == old(self)@.note,
            final(self)@.totp_secret == old(self)@.totp_secret,
            final(self)@.totp_hash == old(self)@.totp_hash,
    {
        let mut key = String::from_str(crate::reserved_prefix_str());
        key.append("TOTP Code");
        let mut value = String::from_str(code);
        match remaining {
            Some(seconds) => {
                value.append(" (");
                let rem = text::u64_to_string(seconds as u64);
                value.append(rem.as_str());
                value.append("s remaining)");
            },
            None => {},
        }
        let ghost kv = key@;
        let ghost vv = value@;
        let ghost before = self@.custom_fields;
        let mut edit: Vec<(String, String)> = Vec::new();
        edit.push((key, value));
        proof {
            assert(edit.deep_view() =~~= seq![(kv, vv)]);
        }
        apply_custom_fields(&mut self.custom_fields, edit);
        proof {
            let edits = seq![(kv, vv)];
            assert(edits.drop_first() =~= Seq::<(Seq<char>, Seq<char>)>::empty());
            assert(spec_apply_fields(spec_apply_field(before, kv, vv), edits.drop_first())
                == spec_apply_field(before, kv, vv));
            assert(vv =~= spec_totp_field_value(code@, remaining));
        }
    }
}

/// The text injected for a TOTP code: the code, with the window's
/// remaining seconds appended when they are shown.
pub open spec fn spec_totp_field_value(code: Seq<char>, remaining: Option<u8>) -> Seq<char> {
    match remaining {
        Some(seconds) => code + " ("@ + text::spec_u64_string(seconds as u64) + "s remaining)"@,
        None => code,
    }
}

} // verus!
