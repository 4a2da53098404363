//! The foreign vault-manager interchange format and its conversions to
//! and from the native record model. The conversion is lossy where the
//! foreign schema has no slot: the TOTP seed has none, and only the first
//! service URL survives a round trip.

use vstd::prelude::*;

use crate::cipher::TotpHash;
use crate::errors::Error;
use crate::store::{spec_any_reserved, vaults_view, Vaults};
use crate::vault::{Vault, VaultView};

verus! {

/// The login block of one foreign item.
#[derive(Debug)]
pub struct BitWardenLoginData {
    /// The username.
    pub username: Option<String>,
    /// The password.
    pub password: Option<String>,
    /// The service URLs.
    pub uris: Option<Vec<BitWardenUri>>,
}

/// One service URL of a foreign item.
#[derive(Debug)]
pub struct BitWardenUri {
    /// The foreign match kind.
    pub mt: Option<i32>,
    /// The URL itself.
    pub uri: String,
}

/// A folder of the foreign schema; the native model has none.
#[derive(Debug)]
pub struct BitWardenFolder {
    /// The folder id.
    pub id: String,
    /// The folder name.
    pub name: String,
}

/// One flattened custom field of a foreign item.
#[derive(Debug)]
pub struct BitWardenNameValue {
    /// The field name.
    pub name: String,
    /// The field value.
    pub value: String,
}

/// One foreign item.
#[derive(Debug)]
pub struct BitWardenPassword {
    /// The foreign type tag; `1` marks a login item.
    pub ty: i32,
    /// The item name.
    pub name: String,
    /// The login block.
    pub login: Option<BitWardenLoginData>,
    /// The notes.
    pub notes: Option<String>,
    /// The flattened custom fields.
    pub fields: Vec<BitWardenNameValue>,
}

/// A whole foreign export.
#[derive(Debug)]
pub struct BitWardenPasswords {
    /// Whether the foreign export is encrypted; this library writes plain
    /// exports.
    pub encrypted: bool,
    /// The folders.
    pub folders: Vec<BitWardenFolder>,
    /// The items.
    pub items: Vec<BitWardenPassword>,
}

/// The model of one foreign item, with the login block flattened.
pub struct BitWardenPasswordView {
    /// The type tag.
    pub ty: int,
    /// The name.
    pub name: Seq<char>,
    /// The username.
    pub username: Option<Seq<char>>,
    /// The password.
    pub password: Option<Seq<char>>,
    /// The service URLs, in order.
    pub uris: Seq<Seq<char>>,
    /// The notes.
    pub notes: Option<Seq<char>>,
    /// The custom fields, in order.
    pub fields: Seq<(Seq<char>, Seq<char>)>,
}

impl View for BitWardenPassword {
    type V = BitWardenPasswordView;

    open spec fn view(&self) -> BitWardenPasswordView {
        BitWardenPasswordView {
            ty: self.ty as int,
            name: self.name@,
            username: match self.login {
                Some(l) => l.username.deep_view(),
                None => None,
            },
            password: match self.login {
                Some(l) => l.password.deep_view(),
                None => None,
            },
            uris: match self.login {
                Some(l) => match l.uris {
                    Some(us) => Seq::new(us@.len(), |i: int| us@[i].uri@),
                    None => Seq::<Seq<char>>::empty(),
                },
                None => Seq::<Seq<char>>::empty(),
            },
            notes: self.notes.deep_view(),
            fields: Seq::new(self.fields@.len(), |i: int| (self.fields@[i].name@, self.fields@[i].value@)),
        }
    }
}

/// What a foreign item becomes as a native record: missing login
/// sub-fields become absent (never the empty string), the first URL is
/// the service, the flattened fields become custom fields, and the TOTP
/// seed stays absent with the default hash choice.
pub open spec fn spec_bw_to_vault(p: BitWardenPasswordView) -> VaultView {
    VaultView {
        name: p.name,
        username: p.username,
        password: p.password,
        service: if p.uris.len() > 0 {
            Some(p.uris[0])
        } else {
            None
        },
        note: p.notes,
        totp_secret: None,
        totp_hash: TotpHash::Sha1,
        custom_fields: p.fields,
    }
}

/// What a native record becomes as a foreign item: a login item whose one
/// URL is the service when there is one; the TOTP seed has no slot and is
/// lost.
pub open spec fn spec_vault_to_bw(v: VaultView) -> BitWardenPasswordView {
    BitWardenPasswordView {
        ty: 1,
        name: v.name,
        username: v.username,
        password: v.password,
        uris: match v.service {
            Some(s) => seq![s],
            None => Seq::<Seq<char>>::empty(),
        },
        notes: v.note,
        fields: v.custom_fields,
    }
}

fn clone_opt_string(field: &Option<String>) -> (r: Option<String>)
    ensures
        r.deep_view() == field.deep_view(),
{
    match field {
        Some(s) => Some(s.clone()),
        None => None,
    }
}

impl BitWardenPassword {
    /// Turn a foreign item into a native record.
    pub fn to_vault(&self) -> (r: Vault)
        ensures
            r@ == spec_bw_to_vault(self@),
    {
        let (username, password, service) = match &self.login {
            Some(l) => {
                let service: Option<String> = match &l.uris {
                    Some(us) => {
                        if us.len() > 0 {
                            Some(us[0].uri.clone())
                        } else {
                            None
                        }
                    },
                    None => None,
                };
                (clone_opt_string(&l.username), clone_opt_string(&l.password), service)
            },
            None => (None, None, None),
        };
        let mut custom_fields: Vec<(String, String)> = Vec::new();
        let mut i: usize = 0;
        while i < self.fields.len()
            invariant
                0 <= i <= self.fields@.len(),
                custom_fields@.len() == i,
                forall|j: int|
                    0 <= j < i ==> #[trigger] custom_fields.deep_view()[j] == (
                        self.fields@[j].name@,
                        self.fields@[j].value@,
                    ),
            decreases self.fields@.len() - i,
        {
            let ghost before = custom_fields.deep_view();
            let k = self.fields[i].name.clone();
            let v = self.fields[i].value.clone();
            let ghost kv = k@;
            let ghost vv = v@;
            custom_fields.push((k, v));
            proof {
                assert(custom_fields.deep_view() =~~= before.push((kv, vv)));
            }
            i = i + 1;
        }
        let out = Vault {
            name: self.name.clone(),
            username,
            password,
            service,
            note: clone_opt_string(&self.notes),
            totp_secret: None,
            totp_hash: TotpHash::Sha1,
            custom_fields,
        };
        proof {
            assert(out@.custom_fields =~~= spec_bw_to_vault(self@).custom_fields);
            assert(out@ =~~= spec_bw_to_vault(self@));
        }
        out
    }

    /// Turn a native record into a foreign item.
    pub fn from_vault(vault: &Vault) -> (r: BitWardenPassword)
        ensures
            r@ == spec_vault_to_bw(vault@),
            r.login is Some,
    {
        let uris: Option<Vec<BitWardenUri>> = match &vault.service {
            Some(s) => {
                let mut us: Vec<BitWardenUri> = Vec::new();
                us.push(BitWardenUri { mt: None, uri: s.clone() });
                Some(us)
            },
            None => None,
        };
        let login = BitWardenLoginData {
            username: clone_opt_string(&vault.username),
            password: clone_opt_string(&vault.password),
            uris,
        };
        let mut fields: Vec<BitWardenNameValue> = Vec::new();
        let mut i: usize = 0;
        while i < vault.custom_fields.len()
            invariant
                0 <= i <= vault.custom_fields@.len(),
                fields@.len() == i,
                forall|j: int|
                    0 <= j < i ==> (#[trigger] fields@[j].name@, fields@[j].value@)
                        == vault.custom_fields.deep_view()[j],
            decreases vault.custom_fields@.len() - i,
        {
            proof {
                assert(vault.custom_fields.deep_view()[i as int] =~~= (
                    vault.custom_fields@[i as int].0@,
                    vault.custom_fields@[i as int].1@,
                ));
            }
            fields.push(
                BitWardenNameValue {
                    name: vault.custom_fields[i].0.clone(),
                    value: vault.custom_fields[i].1.clone(),
                },
            );
            i = i + 1;
        }
        let out = BitWardenPassword { ty: 1, name: vault.name.clone(), login: Some(login), notes: clone_opt_string(&vault.note), fields };
        proof {
            assert(out@.fields =~~= spec_vault_to_bw(vault@).fields);
            assert(out@.uris =~~= spec_vault_to_bw(vault@).uris);
            assert(out@ =~~= spec_vault_to_bw(vault@));
        }
        out
    }
}

impl BitWardenPasswords {
    /// Turn the whole store into a plain foreign export, item for item.
    pub fn from_vaults(vaults: &Vaults) -> (r: BitWardenPasswords)
        ensures
            r.encrypted == false,
            r.folders@.len() == 0,
            r.items@.len() == vaults.vaults@.len(),
            forall|i: int|
                0 <= i < r.items@.len() ==> #[trigger] r.items@[i]@ == spec_vault_to_bw(
                    vaults_view(vaults.vaults@)[i],
                ),
    {
        let mut items: Vec<BitWardenPassword> = Vec::new();
        let mut i: usize = 0;
        while i < vaults.vaults.len()
            invariant
                0 <= i <= vaults.vaults@.len(),
                items@.len() == i,
                forall|j: int|
                    0 <= j < i ==> #[trigger] items@[j]@ == spec_vault_to_bw(
                        vaults_view(vaults.vaults@)[j],
                    ),
            decreases vaults.vaults@.len() - i,
        {
            proof {
                assert(vaults_view(vaults.vaults@)[i as int] == vaults.vaults@[i as int]@);
            }
            let item = BitWardenPassword::from_vault(&vaults.vaults[i]);
            items.push(item);
            i = i + 1;
        }
        BitWardenPasswords { encrypted: false, folders: Vec::new(), items }
    }
}

impl Vaults {
    /// Import foreign items: convert each to a native record, reject any
    /// whose custom fields carry the reserved prefix, and append the
    /// rest. All or nothing: on the reserved-prefix error the store is
    /// unchanged.
    pub fn import_foreign(&mut self, passwords: BitWardenPasswords) -> (r: Result<usize, Error>)
        ensures
            final(self).master_password == old(self).master_password,
            final(self).vaults_file == old(self).vaults_file,
            match r {
                Ok(n) => {
                    &&& !spec_any_reserved(
                        Seq::new(
                            passwords.items@.len(),
                            |i: int| spec_bw_to_vault(passwords.items@[i]@),
                        ),
                    )
                    &&& vaults_view(final(self).vaults@) == vaults_view(old(self).vaults@)
                        + Seq::new(
                        passwords.items@.len(),
                        |i: int| spec_bw_to_vault(passwords.items@[i]@),
                    )
                    &&& n == passwords.items@.len()
                },
                Err(e) => {
                    &&& final(self).vaults@ == old(self).vaults@
                    &&& e == Error::ReservedPrefix
                    &&& spec_any_reserved(
                        Seq::new(
                            passwords.items@.len(),
                            |i: int| spec_bw_to_vault(passwords.items@[i]@),
                        ),
                    )
                },
            },
    {
        let ghost decoded = Seq::new(
            passwords.items@.len(),
            |i: int| spec_bw_to_vault(passwords.items@[i]@),
        );
        let mut records: Vec<Vault> = Vec::new();
        let mut i: usize = 0;
        while i < passwords.items.len()
            invariant
                decoded == Seq::new(
                    passwords.items@.len(),
                    |j: int| spec_bw_to_vault(passwords.items@[j]@),
                ),
                decoded.len() == passwords.items@.len(),
                0 <= i <= passwords.items@.len(),
                records@.len() == i,
                self.vaults@ == old(self).vaults@,
                self.master_password == old(self).master_password,
                self.vaults_file == old(self).vaults_file,
                forall|j: int| 0 <= j < i ==> #[trigger] records@[j]@ == decoded[j],
                forall|j: int|
                    0 <= j < i ==> !crate::store::spec_has_reserved_field(#[trigger] decoded[j]),
            decreases passwords.items@.len() - i,
        {
            let record = passwords.items[i].to_vault();
            if crate::store::has_reserved_field(&record) {
                proof {
                    assert(decoded[i as int] == record@);
                    assert(crate::store::spec_has_reserved_field(decoded[i as int]));
                    assert(spec_any_reserved(decoded));
                }
                return Err(Error::ReservedPrefix);
            }
            records.push(record);
            i = i + 1;
        }
        let count = records.len();
        let ghost old_views = vaults_view(self.vaults@);
        self.extend_vaults(records);
        proof {
            assert(vaults_view(self.vaults@) =~~= old_views + decoded);
        }
        Ok(count)
    }
}

} // verus!
