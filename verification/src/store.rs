//! The vault store: the collection of records, the derived master key and
//! the backing file path; the whole-file encrypt/decrypt cycle; and
//! lookup by index or name.

use vstd::prelude::*;

use crate::cipher;
use crate::codec;
use crate::errors::{Error, SelectorKind};
use crate::text;
use crate::vault::{spec_decrypt_vault, Vault, VaultView};

verus! {

/// The models of a list of records.
pub open spec fn vaults_view(vaults: Seq<Vault>) -> Seq<VaultView> {
    Seq::new(vaults.len(), |i: int| vaults[i]@)
}

/// A record selector: a one-based index, or a record name.
#[derive(Clone, Debug)]
pub enum Selector {
    /// A one-based position in the store.
    Index(usize),
    /// A record name, matched exactly, first match wins.
    Name(String),
}

/// The model of a selector.
pub enum SelectorView {
    /// A one-based position.
    Index(int),
    /// A record name.
    Name(Seq<char>),
}

impl View for Selector {
    type V = SelectorView;

    open spec fn view(&self) -> SelectorView {
        match self {
            Selector::Index(n) => SelectorView::Index(*n as int),
            Selector::Name(s) => SelectorView::Name(s@),
        }
    }
}

/// The digit part of a selector argument: the argument trimmed, with one
/// leading plus sign stripped, as integer parsing accepts it.
pub open spec fn spec_selector_digits(s: Seq<char>) -> Seq<char> {
    let t = text::spec_trim(s);
    if t.len() > 0 && t[0] == '+' {
        t.drop_first()
    } else {
        t
    }
}

/// What a selector string means: one whose trimmed text is a string of
/// digits with a positive value that fits the machine is an index;
/// everything else is a name, kept as written. A record named with a
/// pure-digit string can therefore not be selected by name; this
/// tie-break is deliberate and kept explicit.
pub open spec fn spec_parse_selector(s: Seq<char>) -> SelectorView {
    let d = spec_selector_digits(s);
    if d.len() > 0 && text::spec_all_digits(d) && 1 <= text::spec_dec_value(d)
        && text::spec_dec_value(d) <= usize::MAX {
        SelectorView::Index(text::spec_dec_value(d) as int)
    } else {
        SelectorView::Name(s)
    }
}

/// Parse a selector argument: a positive index if the trimmed string is
/// one, a name otherwise.
pub fn parse_selector(s: &str) -> (r: Selector)
    ensures
        r@ == spec_parse_selector(s@),
{
    let trimmed = text::trim_str(s);
    let t_len = trimmed.unicode_len();
    let digits: &str = if t_len > 0 && trimmed.get_char(0) == '+' {
        trimmed.substring_char(1, t_len)
    } else {
        trimmed
    };
    proof {
        if text::spec_trim(s@).len() > 0 && text::spec_trim(s@)[0] == '+' {
            assert(digits@ =~= spec_selector_digits(s@));
        }
    }
    match text::parse_usize(digits) {
        Some(n) => {
            if n >= 1 {
                Selector::Index(n)
            } else {
                Selector::Name(s.to_owned())
            }
        },
        None => Selector::Name(s.to_owned()),
    }
}

/// The first position whose record has the given name, or the length when
/// none does.
pub open spec fn spec_name_index(vaults: Seq<VaultView>, name: Seq<char>) -> int
    decreases vaults.len(),
{
    if vaults.len() == 0 {
        0
    } else if vaults[0].name == name {
        0
    } else {
        1 + spec_name_index(vaults.drop_first(), name)
    }
}

/// `spec_name_index` is the first match.
pub proof fn lemma_name_index(vaults: Seq<VaultView>, name: Seq<char>)
    ensures
        0 <= spec_name_index(vaults, name) <= vaults.len(),
        spec_name_index(vaults, name) < vaults.len() ==> vaults[spec_name_index(
            vaults,
            name,
        )].name == name,
        forall|j: int| 0 <= j < spec_name_index(vaults, name) ==> vaults[j].name != name,
    decreases vaults.len(),
{
    if vaults.len() > 0 && vaults[0].name != name {
        lemma_name_index(vaults.drop_first(), name);
        let tail = vaults.drop_first();
        assert forall|j: int| 0 <= j < spec_name_index(vaults, name) implies vaults[j].name
            != name by {
            if j > 0 {
                assert(vaults[j] == tail[j - 1]);
            }
        }
    }
}

proof fn lemma_name_index_at(vaults: Seq<VaultView>, name: Seq<char>, i: int)
    requires
        0 <= i <= vaults.len(),
        forall|j: int| 0 <= j < i ==> vaults[j].name != name,
        i == vaults.len() || vaults[i as int].name == name,
    ensures
        spec_name_index(vaults, name) == i,
    decreases i,
{
    if i == 0 {
        if vaults.len() > 0 && vaults[0].name != name {
            lemma_name_index(vaults.drop_first(), name);
        }
    } else {
        let tail = vaults.drop_first();
        assert forall|j: int| 0 <= j < i - 1 implies tail[j].name != name by {
            assert(tail[j] == vaults[j + 1]);
        }
        lemma_name_index_at(tail, name, i - 1);
    }
}

/// Where a selector points in a list of records: a one-based index points
/// at its position when it is in range; a name points at the first record
/// carrying it.
pub open spec fn spec_lookup(vaults: Seq<VaultView>, sel: SelectorView) -> Option<int> {
    match sel {
        SelectorView::Index(n) => if 1 <= n <= vaults.len() {
            Some(n - 1)
        } else {
            None
        },
        SelectorView::Name(name) => if spec_name_index(vaults, name) < vaults.len() {
            Some(spec_name_index(vaults, name))
        } else {
            None
        },
    }
}

/// Returns the position of the record a selector points at.
///
/// Fails with a not-found error carrying the selector kind, so that the
/// caller can phrase the message precisely.
pub fn vault_by_index_or_name(location: &Selector, vaults: &Vec<Vault>) -> (r: Result<usize, Error>)
    ensures
        match r {
            Ok(i) => spec_lookup(vaults_view(vaults@), location@) == Some(i as int) && i
                < vaults@.len(),
            Err(e) => spec_lookup(vaults_view(vaults@), location@) is None && match location@ {
                SelectorView::Index(_) => e == Error::NotFound(SelectorKind::Index),
                SelectorView::Name(_) => e == Error::NotFound(SelectorKind::Name),
            },
        },
{
    let ghost views = vaults_view(vaults@);
    match location {
        Selector::Index(n) => {
            if 1 <= *n && *n <= vaults.len() {
                Ok(*n - 1)
            } else {
                Err(Error::NotFound(SelectorKind::Index))
            }
        },
        Selector::Name(name) => {
            let mut i: usize = 0;
            while i < vaults.len()
                invariant
                    location@ == SelectorView::Name(name@),
                    0 <= i <= vaults@.len(),
                    views == vaults_view(vaults@),
                    views.len() == vaults@.len(),
                    forall|j: int| 0 <= j < i ==> #[trigger] views[j].name != name@,
                decreases vaults@.len() - i,
            {
                proof {
                    assert(views[i as int] == vaults@[i as int]@);
                }
                if text::str_eq(vaults[i].name.as_str(), name.as_str()) {
                    proof {
                        lemma_name_index_at(views, name@, i as int);
                    }
                    return Ok(i);
                }
                i = i + 1;
            }
            proof {
                lemma_name_index_at(views, name@, views.len() as int);
            }
            Err(Error::NotFound(SelectorKind::Name))
        },
    }
}

/// A selector that is a digit string resolves by position, one-based,
/// whatever the records are named; one that parses as a name resolves to
/// the first record with that name.
pub proof fn lemma_lookup_precedence(vaults: Seq<VaultView>, s: Seq<char>)
    ensures
        (s.len() > 0 && text::spec_all_digits(s) && 1 <= text::spec_dec_value(s)
            && text::spec_dec_value(s) <= vaults.len() && vaults.len() <= usize::MAX)
            ==> spec_lookup(vaults, spec_parse_selector(s)) == Some(
            text::spec_dec_value(s) - 1,
        ),
        (spec_parse_selector(s) == SelectorView::Name(s) && spec_name_index(vaults, s)
            < vaults.len()) ==> spec_lookup(vaults, spec_parse_selector(s)) == Some(
            spec_name_index(vaults, s),
        ),
{
    if s.len() > 0 && text::spec_all_digits(s) {
        assert(!text::spec_is_whitespace(s[0]));
        assert(text::spec_trim_front(s) == s);
        assert(!text::spec_is_whitespace(s[s.len() - 1]));
        assert(text::spec_trim_back(s) == s);
        assert(s[0] != '+');
        assert(spec_selector_digits(s) == s);
    }
}

/// The vaults manager: the master key, the backing file path and the
/// decrypted records.
#[derive(Debug)]
pub struct Vaults {
    /// Hash of the master password.
    pub master_password: [u8; 32],
    /// The backing vaults file path.
    pub vaults_file: String,
    /// The records, decrypted, in file order.
    pub vaults: Vec<Vault>,
}

/// What decrypting every record of a parsed container yields: all or
/// nothing.
pub open spec fn spec_decrypt_records(key: Seq<u8>, records: Seq<crate::vault::EncryptedVaultView>) -> Option<
    Seq<VaultView>,
> {
    if forall|i: int|
        0 <= i < records.len() ==> spec_decrypt_vault(key, #[trigger] records[i]) is Some {
        Some(
            Seq::new(records.len(), |i: int| spec_decrypt_vault(key, records[i])->Some_0),
        )
    } else {
        None
    }
}

/// What loading a stored blob under a key yields: an empty blob is an
/// empty store; otherwise the blob must decrypt, parse as a container,
/// and every record must decrypt.
pub open spec fn spec_load(key: Seq<u8>, blob: Seq<u8>) -> Option<Seq<VaultView>> {
    if blob.len() == 0 {
        Some(Seq::<VaultView>::empty())
    } else {
        match cipher::spec_decrypt(key, blob) {
            None => None,
            Some(bytes) => match codec::p_container(bytes) {
                None => None,
                Some(records) => spec_decrypt_records(key, records),
            },
        }
    }
}

/// The error a failed load reports: a corrupt container is a
/// serialization error; everything else is the generic decryption error.
pub open spec fn spec_load_error(key: Seq<u8>, blob: Seq<u8>) -> Error {
    match cipher::spec_decrypt(key, blob) {
        None => Error::Decryption,
        Some(bytes) => match codec::p_container(bytes) {
            None => Error::Serialization,
            Some(_) => Error::Decryption,
        },
    }
}

impl Vaults {
    /// Create a new store from its parts.
    pub fn new(master_password: [u8; 32], vaults_file: String, vaults: Vec<Vault>) -> (r: Vaults)
        ensures
            r.master_password@ == master_password@,
            r.vaults_file@ == vaults_file@,
            r.vaults@ == vaults@,
    {
        Vaults { master_password, vaults_file, vaults }
    }

    /// Add a new record at the end.
    pub fn add_vault(&mut self, vault: Vault)
        ensures
            final(self).vaults@ == old(self).vaults@.push(vault),
            final(self).master_password == old(self).master_password,
            final(self).vaults_file == old(self).vaults_file,
    {
        self.vaults.push(vault)
    }

    /// Append imported records at the end, in order.
    pub fn extend_vaults(&mut self, records: Vec<Vault>)
        ensures
            final(self).vaults@ == old(self).vaults@ + records@,
            final(self).master_password == old(self).master_password,
            final(self).vaults_file == old(self).vaults_file,
    {
        let mut records = records;
        self.vaults.append(&mut records);
    }

    /// Remove every record: the bulk wipe behind the clean operation.
    pub fn clean(&mut self)
        ensures
            final(self).vaults@.len() == 0,
            final(self).master_password == old(self).master_password,
            final(self).vaults_file == old(self).vaults_file,
    {
        self.vaults.clear()
    }

    /// Swap the key used by the next save; the records, already decrypted
    /// in memory, are untouched.
    pub fn change_master_key(&mut self, new_key: [u8; 32])
        ensures
            final(self).master_password@ == new_key@,
            final(self).vaults@ == old(self).vaults@,
            final(self).vaults_file == old(self).vaults_file,
    {
        self.master_password = new_key;
    }

    /// Encrypt every record, serialize the collection, and encrypt the
    /// serialized bytes as a single blob under the master key: the bytes
    /// that the backing file holds. Loading them under the same key
    /// returns exactly the records of this store.
    pub fn to_encrypted_bytes(&self) -> (r: Vec<u8>)
        ensures
            spec_load(self.master_password@, r@) == Some(vaults_view(self.vaults@)),
    {
        let ghost key = self.master_password@;
        let ghost views = vaults_view(self.vaults@);
        let mut encrypted: Vec<crate::vault::EncryptedVault> = Vec::new();
        let mut i: usize = 0;
        while i < self.vaults.len()
            invariant
                key == self.master_password@,
                views == vaults_view(self.vaults@),
                views.len() == self.vaults@.len(),
                0 <= i <= self.vaults@.len(),
                encrypted@.len() == i,
                forall|j: int|
                    0 <= j < i ==> spec_decrypt_vault(
                        key,
                        #[trigger] codec::records_view(encrypted@)[j],
                    ) == Some(views[j]),
            decreases self.vaults@.len() - i,
        {
            let ghost before = codec::records_view(encrypted@);
            let ev = self.vaults[i].encrypt(&self.master_password);
            let ghost evv = ev@;
            encrypted.push(ev);
            proof {
                assert(codec::records_view(encrypted@) =~= before.push(evv));
                assert(views[i as int] == self.vaults@[i as int]@);
                assert forall|j: int| 0 <= j < i + 1 implies spec_decrypt_vault(
                    key,
                    #[trigger] codec::records_view(encrypted@)[j],
                ) == Some(views[j]) by {
                    if j < i {
                        assert(codec::records_view(encrypted@)[j] == before[j]);
                    } else {
                        assert(codec::records_view(encrypted@)[j] == evv);
                    }
                }
            }
            i = i + 1;
        }
        let serialized = codec::serialize_records(&encrypted);
        let blob = cipher::encrypt(&self.master_password, serialized.as_slice());
        proof {
            assert(blob@.len() > 0);
            let records = codec::records_view(encrypted@);
            assert(spec_decrypt_records(key, records) matches Some(decoded) && decoded =~= views);
        }
        blob
    }

    /// Construct a store by decrypting and parsing the backing file's
    /// bytes: the inverse of [`Vaults::to_encrypted_bytes`]. An empty file
    /// is an empty store, not an error. Fails with the generic decryption
    /// error on a wrong key or tampered data — never returning garbage
    /// records — and with a serialization error on a corrupt container.
    pub fn from_encrypted_bytes(
        master_password: [u8; 32],
        vaults_file: String,
        data: &[u8],
    ) -> (r: Result<Vaults, Error>)
        ensures
            match r {
                Ok(store) => spec_load(master_password@, data@) == Some(vaults_view(store.vaults@))
                    && store.master_password@ == master_password@ && store.vaults_file@
                    == vaults_file@,
                Err(e) => spec_load(master_password@, data@) is None && e == spec_load_error(
                    master_password@,
                    data@,
                ),
            },
    {
        let ghost key = master_password@;
        if data.len() == 0 {
            let store = Vaults { master_password, vaults_file, vaults: Vec::new() };
            proof {
                assert(vaults_view(store.vaults@) =~= Seq::<VaultView>::empty());
            }
            return Ok(store);
        }
        let serialized = match cipher::decrypt(&master_password, data) {
            Ok(bytes) => bytes,
            Err(_) => return Err(Error::Decryption),
        };
        let encrypted = match codec::deserialize_records(serialized.as_slice()) {
            Ok(records) => records,
            Err(_) => return Err(Error::Serialization),
        };
        let ghost evs = codec::records_view(encrypted@);
        let mut vaults: Vec<Vault> = Vec::new();
        let mut i: usize = 0;
        while i < encrypted.len()
            invariant
                key == master_password@,
                data@.len() > 0,
                cipher::spec_decrypt(key, data@) == Some(serialized@),
                codec::p_container(serialized@) == Some(evs),
                evs == codec::records_view(encrypted@),
                evs.len() == encrypted@.len(),
                0 <= i <= encrypted@.len(),
                vaults@.len() == i,
                forall|j: int|
                    0 <= j < i ==> spec_decrypt_vault(key, #[trigger] evs[j]) is Some,
                forall|j: int|
                    0 <= j < i ==> #[trigger] vaults_view(vaults@)[j] == spec_decrypt_vault(
                        key,
                        evs[j],
                    )->Some_0,
            decreases encrypted@.len() - i,
        {
            let ghost before = vaults_view(vaults@);
            proof {
                assert(evs[i as int] == encrypted@[i as int]@);
            }
            let vault = match Vault::decrypt(&encrypted[i], &master_password) {
                Ok(v) => v,
                Err(_) => {
                    proof {
                        assert(spec_decrypt_vault(key, evs[i as int]) is None);
                        assert(spec_decrypt_records(key, evs) is None);
                    }
                    return Err(Error::Decryption);
                },
            };
            let ghost vv = vault@;
            vaults.push(vault);
            proof {
                assert(vaults_view(vaults@) =~= before.push(vv));
                assert forall|j: int| 0 <= j < i + 1 implies #[trigger] vaults_view(vaults@)[j]
                    == spec_decrypt_vault(key, evs[j])->Some_0 by {
                    if j < i {
                        assert(vaults_view(vaults@)[j] == before[j]);
                    } else {
                        assert(vaults_view(vaults@)[j] == vv);
                    }
                }
            }
            i = i + 1;
        }
        proof {
            assert(spec_decrypt_records(key, evs) matches Some(decoded) && decoded =~= vaults_view(
                vaults@,
            ));
        }
        Ok(Vaults { master_password, vaults_file, vaults })
    }
}

/// Whether a record carries a custom-field key with the reserved prefix.
pub open spec fn spec_has_reserved_field(v: VaultView) -> bool {
    exists|i: int|
        0 <= i < v.custom_fields.len() && text::spec_starts_with(
            #[trigger] v.custom_fields[i].0,
            crate::RESERVED_FIELD_PREFIX@,
        )
}

/// Whether any record of a list carries a reserved custom-field key.
pub open spec fn spec_any_reserved(vaults: Seq<VaultView>) -> bool {
    exists|i: int| 0 <= i < vaults.len() && spec_has_reserved_field(#[trigger] vaults[i])
}

/// Whether a record carries a custom-field key with the reserved prefix.
pub fn has_reserved_field(vault: &Vault) -> (r: bool)
    ensures
        r == spec_has_reserved_field(vault@),
{
    let prefix = crate::reserved_prefix_str();
    let mut i: usize = 0;
    while i < vault.custom_fields.len()
        invariant
            0 <= i <= vault.custom_fields@.len(),
            prefix@ == crate::RESERVED_FIELD_PREFIX@,
            forall|j: int|
                0 <= j < i ==> !text::spec_starts_with(
                    #[trigger] vault@.custom_fields[j].0,
                    crate::RESERVED_FIELD_PREFIX@,
                ),
        decreases vault.custom_fields@.len() - i,
    {
        proof {
            assert(vault@.custom_fields[i as int] =~~= (
                vault.custom_fields@[i as int].0@,
                vault.custom_fields@[i as int].1@,
            ));
        }
        if text::str_starts_with(vault.custom_fields[i].0.as_str(), prefix) {
            proof {
                assert(text::spec_starts_with(
                    vault@.custom_fields[i as int].0,
                    crate::RESERVED_FIELD_PREFIX@,
                ));
            }
            return true;
        }
        i = i + 1;
    }
    false
}

/// What importing a list of portable records yields: all or nothing.
pub open spec fn spec_import_records(key: Seq<u8>, records: Seq<VaultView>) -> Option<
    Seq<VaultView>,
> {
    if forall|i: int|
        0 <= i < records.len() ==> crate::vault::spec_import_vault(
            key,
            #[trigger] records[i],
        ) is Some {
        Some(
            Seq::new(
                records.len(),
                |i: int| crate::vault::spec_import_vault(key, records[i])->Some_0,
            ),
        )
    } else {
        None
    }
}

impl Vaults {
    /// Encrypt the records into the portable form under the given key:
    /// each text field independently encrypted and base64-encoded. This is
    /// the backup form; importing it under the same key returns the
    /// records.
    pub fn json_export(&self, encryption_key: &[u8; 32]) -> (r: Vec<Vault>)
        ensures
            spec_import_records(encryption_key@, vaults_view(r@)) == Some(
                vaults_view(self.vaults@),
            ),
    {
        let ghost key = encryption_key@;
        let ghost views = vaults_view(self.vaults@);
        let mut out: Vec<Vault> = Vec::new();
        let mut i: usize = 0;
        while i < self.vaults.len()
            invariant
                key == encryption_key@,
                views == vaults_view(self.vaults@),
                views.len() == self.vaults@.len(),
                0 <= i <= self.vaults@.len(),
                out@.len() == i,
                forall|j: int|
                    0 <= j < i ==> crate::vault::spec_import_vault(
                        key,
                        #[trigger] vaults_view(out@)[j],
                    ) == Some(views[j]),
            decreases self.vaults@.len() - i,
        {
            let ghost before = vaults_view(out@);
            let record = self.vaults[i].encrypt_portable(encryption_key);
            let ghost rv = record@;
            out.push(record);
            proof {
                assert(vaults_view(out@) =~= before.push(rv));
                assert(views[i as int] == self.vaults@[i as int]@);
                assert forall|j: int| 0 <= j < i + 1 implies crate::vault::spec_import_vault(
                    key,
                    #[trigger] vaults_view(out@)[j],
                ) == Some(views[j]) by {
                    if j < i {
                        assert(vaults_view(out@)[j] == before[j]);
                    } else {
                        assert(vaults_view(out@)[j] == rv);
                    }
                }
            }
            i = i + 1;
        }
        proof {
            let ghost result = vaults_view(out@);
            assert(spec_import_records(key, result) matches Some(decoded) && decoded =~= views);
        }
        out
    }

    /// Decrypt a list of portable records under the given key: all or
    /// nothing, so a wrong key never yields a partial import.
    pub fn json_reload(master_password: &[u8; 32], records: &Vec<Vault>) -> (r: Result<
        Vec<Vault>,
        Error,
    >)
        ensures
            match r {
                Ok(out) => spec_import_records(master_password@, vaults_view(records@)) == Some(
                    vaults_view(out@),
                ),
                Err(e) => spec_import_records(master_password@, vaults_view(records@)) is None && e
                    == Error::Decryption,
            },
    {
        let ghost key = master_password@;
        let ghost views = vaults_view(records@);
        let mut out: Vec<Vault> = Vec::new();
        let mut i: usize = 0;
        while i < records.len()
            invariant
                key == master_password@,
                views == vaults_view(records@),
                views.len() == records@.len(),
                0 <= i <= records@.len(),
                out@.len() == i,
                forall|j: int|
                    0 <= j < i ==> crate::vault::spec_import_vault(
                        key,
                        #[trigger] views[j],
                    ) is Some,
                forall|j: int|
                    0 <= j < i ==> #[trigger] vaults_view(out@)[j]
                        == crate::vault::spec_import_vault(key, views[j])->Some_0,
            decreases records@.len() - i,
        {
            let ghost before = vaults_view(out@);
            proof {
                assert(views[i as int] == records@[i as int]@);
            }
            let vault = match Vault::decrypt_portable(&records[i], master_password) {
                Ok(v) => v,
                Err(_) => {
                    proof {
                        assert(crate::vault::spec_import_vault(key, views[i as int]) is None);
                        assert(spec_import_records(key, views) is None);
                    }
                    return Err(Error::Decryption);
                },
            };
            let ghost vv = vault@;
            out.push(vault);
            proof {
                assert(vaults_view(out@) =~= before.push(vv));
                assert forall|j: int| 0 <= j < i + 1 implies #[trigger] vaults_view(out@)[j]
                    == crate::vault::spec_import_vault(key, views[j])->Some_0 by {
                    if j < i {
                        assert(vaults_view(out@)[j] == before[j]);
                    } else {
                        assert(vaults_view(out@)[j] == vv);
                    }
                }
            }
            i = i + 1;
        }
        proof {
            assert(spec_import_records(key, views) matches Some(decoded) && decoded =~= vaults_view(
                out@,
            ));
        }
        Ok(out)
    }

    /// Import portable records: decrypt them under the given key, reject
    /// any whose custom fields carry the reserved prefix, and append the
    /// rest. All or nothing: on any failure the store is unchanged.
    pub fn import_portable(&mut self, records: &Vec<Vault>, decryption_key: &[u8; 32]) -> (r:
        Result<usize, Error>)
        ensures
            final(self).master_password == old(self).master_password,
            final(self).vaults_file == old(self).vaults_file,
            match r {
                Ok(n) => {
                    &&& spec_import_records(decryption_key@, vaults_view(records@)) matches Some(
                        decoded,
                    )
                    &&& !spec_any_reserved(
                        spec_import_records(decryption_key@, vaults_view(records@))->Some_0,
                    )
                    &&& vaults_view(final(self).vaults@) == vaults_view(old(self).vaults@)
                        + spec_import_records(decryption_key@, vaults_view(records@))->Some_0
                    &&& n == records@.len()
                },
                Err(e) => {
                    &&& final(self).vaults@ == old(self).vaults@
                    &&& match spec_import_records(decryption_key@, vaults_view(records@)) {
                        None => e == Error::Decryption,
                        Some(decoded) => e == Error::ReservedPrefix && spec_any_reserved(decoded),
                    }
                },
            },
    {
        let ghost key = decryption_key@;
        let ghost views = vaults_view(records@);
        let decoded = match Vaults::json_reload(decryption_key, records) {
            Ok(out) => out,
            Err(e) => return Err(e),
        };
        let ghost dviews = vaults_view(decoded@);
        let mut i: usize = 0;
        while i < decoded.len()
            invariant
                key == decryption_key@,
                views == vaults_view(records@),
                self.vaults@ == old(self).vaults@,
                self.master_password == old(self).master_password,
                self.vaults_file == old(self).vaults_file,
                spec_import_records(key, views) == Some(dviews),
                dviews == vaults_view(decoded@),
                dviews.len() == decoded@.len(),
                0 <= i <= decoded@.len(),
                forall|j: int| 0 <= j < i ==> !spec_has_reserved_field(#[trigger] dviews[j]),
            decreases decoded@.len() - i,
        {
            proof {
                assert(dviews[i as int] == decoded@[i as int]@);
            }
            if has_reserved_field(&decoded[i]) {
                proof {
                    assert(spec_has_reserved_field(dviews[i as int]));
                    assert(spec_any_reserved(dviews));
                }
                return Err(Error::ReservedPrefix);
            }
            i = i + 1;
        }
        let count = decoded.len();
        let ghost old_views = vaults_view(self.vaults@);
        self.extend_vaults(decoded);
        proof {
            assert(vaults_view(self.vaults@) =~= old_views + dviews);
        }
        Ok(count)
    }
}

impl DeepView for Selector {
    type V = SelectorView;

    open spec fn deep_view(&self) -> SelectorView {
        self.view()
    }
}

/// Whether a list of positions holds the given one.
pub open spec fn spec_contains_index(indices: Seq<usize>, j: int) -> bool {
    exists|k: int| 0 <= k < indices.len() && indices[k] == j
}

/// Whether a list of positions holds the given one.
pub fn contains_index(indices: &Vec<usize>, j: usize) -> (r: bool)
    ensures
        r == spec_contains_index(indices@, j as int),
{
    let mut k: usize = 0;
    while k < indices.len()
        invariant
            0 <= k <= indices@.len(),
            forall|m: int| 0 <= m < k ==> indices@[m] != j,
        decreases indices@.len() - k,
    {
        if indices[k] == j {
            assert(indices@[k as int] == j);
            return true;
        }
        k = k + 1;
    }
    false
}

/// The records that survive removing a set of positions, in order.
pub open spec fn spec_retain_not_in(views: Seq<VaultView>, banned: Seq<usize>) -> Seq<VaultView>
    decreases views.len(),
{
    if views.len() == 0 {
        Seq::<VaultView>::empty()
    } else {
        spec_retain_not_in(views.drop_last(), banned) + (if spec_contains_index(
            banned,
            views.len() - 1,
        ) {
            Seq::<VaultView>::empty()
        } else {
            seq![views.last()]
        })
    }
}

impl Vaults {
    /// Remove the record at a position.
    pub fn remove_vault(&mut self, index: usize) -> (r: Vault)
        requires
            index < old(self).vaults@.len(),
        ensures
            final(self).vaults@ == old(self).vaults@.remove(index as int),
            r == old(self).vaults@[index as int],
            final(self).master_password == old(self).master_password,
            final(self).vaults_file == old(self).vaults_file,
    {
        self.vaults.remove(index)
    }

    /// Keep exactly the records whose positions are not banned, in order:
    /// the bulk multi-remove primitive.
    pub fn retain_not_in(&mut self, banned: &Vec<usize>)
        ensures
            vaults_view(final(self).vaults@) == spec_retain_not_in(
                vaults_view(old(self).vaults@),
                banned@,
            ),
            final(self).master_password == old(self).master_password,
            final(self).vaults_file == old(self).vaults_file,
    {
        let ghost views = vaults_view(self.vaults@);
        let mut kept: Vec<Vault> = Vec::new();
        let mut i: usize = 0;
        while i < self.vaults.len()
            invariant
                views == vaults_view(self.vaults@),
                views.len() == self.vaults@.len(),
                0 <= i <= self.vaults@.len(),
                vaults_view(kept@) == spec_retain_not_in(views.subrange(0, i as int), banned@),
            decreases self.vaults@.len() - i,
        {
            let ghost before = vaults_view(kept@);
            let ghost prefix = views.subrange(0, i as int);
            if !contains_index(banned, i) {
                let v = self.vaults[i].clone();
                kept.push(v);
            }
            proof {
                let ext = views.subrange(0, i + 1);
                assert(ext.drop_last() =~= prefix);
                assert(ext.last() == views[i as int]);
                assert(views[i as int] == self.vaults@[i as int]@);
                if spec_contains_index(banned@, i as int) {
                    assert(vaults_view(kept@) =~= before);
                    assert(vaults_view(kept@) =~= spec_retain_not_in(ext, banned@));
                } else {
                    assert(vaults_view(kept@) =~= before.push(views[i as int]));
                    assert(vaults_view(kept@) =~= spec_retain_not_in(ext, banned@));
                }
            }
            i = i + 1;
        }
        proof {
            assert(views.subrange(0, views.len() as int) =~= views);
        }
        self.vaults = kept;
    }
}

/// Resolve every selector to a position, all or nothing: any selector
/// that points at no record fails the whole batch with its not-found
/// error.
pub fn resolve_selectors(locations: &Vec<Selector>, vaults: &Vec<Vault>) -> (r: Result<
    Vec<usize>,
    Error,
>)
    ensures
        match r {
            Ok(indices) => indices@.len() == locations@.len() && forall|j: int|
                0 <= j < locations@.len() ==> spec_lookup(
                    vaults_view(vaults@),
                    #[trigger] locations.deep_view()[j],
                ) == Some(indices@[j] as int),
            Err(e) => (exists|j: int|
                0 <= j < locations@.len() && spec_lookup(
                    vaults_view(vaults@),
                    #[trigger] locations.deep_view()[j],
                ) is None) && e matches Error::NotFound(_),
        },
{
    let mut indices: Vec<usize> = Vec::new();
    let mut i: usize = 0;
    while i < locations.len()
        invariant
            0 <= i <= locations@.len(),
            indices@.len() == i,
            locations.deep_view().len() == locations@.len(),
            forall|j: int|
                0 <= j < i ==> spec_lookup(
                    vaults_view(vaults@),
                    #[trigger] locations.deep_view()[j],
                ) == Some(indices@[j] as int),
        decreases locations@.len() - i,
    {
        proof {
            assert(locations.deep_view()[i as int] == locations@[i as int]@);
        }
        match vault_by_index_or_name(&locations[i], vaults) {
            Ok(at) => {
                indices.push(at);
            },
            Err(e) => {
                proof {
                    assert(spec_lookup(
                        vaults_view(vaults@),
                        locations.deep_view()[i as int],
                    ) is None);
                }
                return Err(e);
            },
        }
        i = i + 1;
    }
    Ok(indices)
}

} // verus!
