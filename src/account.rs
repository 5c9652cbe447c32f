//! The printable account record, and its projection from a configuration
//! entry.

use vstd::prelude::*;

use crate::config::{BackendAccountConfig, DeserializedAccountConfig};

verus! {

/// What an [`Account`] holds, as mathematical values.
pub ghost struct AccountModel {
    pub name: Seq<char>,
    pub backend: Seq<char>,
    pub is_default: bool,
}

/// One account as listed: its name, the label of its backend, and whether it
/// is the default account.
#[derive(Clone, Debug, PartialEq, Eq)]
pub struct Account {
    pub name: String,
    pub backend: String,
    pub is_default: bool,
}

impl View for Account {
    type V = AccountModel;

    open spec fn view(&self) -> AccountModel {
        AccountModel { name: self.name@, backend: self.backend@, is_default: self.is_default }
    }
}

/// The label of the backend that a configuration entry uses.
pub open spec fn backend_label(config: DeserializedAccountConfig) -> Seq<char> {
    match config {
        DeserializedAccountConfig::Imap(_) => "imap"@,
        DeserializedAccountConfig::Maildir(_) => "maildir"@,
        DeserializedAccountConfig::Notmuch(_) => "notmuch"@,
        DeserializedAccountConfig::NoBackend(_) => "none"@,
    }
}

/// Whether a configuration entry marks its account as the default one: the
/// flag of the backend's base settings, `false` where it is absent, and always
/// `false` for an entry with no backend.
pub open spec fn default_of(config: DeserializedAccountConfig) -> bool {
    match config {
        DeserializedAccountConfig::Imap(c) => c.base.default_flag(),
        DeserializedAccountConfig::Maildir(c) => c.base.default_flag(),
        DeserializedAccountConfig::Notmuch(c) => c.base.default_flag(),
        DeserializedAccountConfig::NoBackend(_) => false,
    }
}

/// The account that the entry `name` with configuration `config` projects to.
pub open spec fn project(name: Seq<char>, config: DeserializedAccountConfig) -> AccountModel {
    AccountModel { name, backend: backend_label(config), is_default: default_of(config) }
}

impl Account {
    /// Builds an account from its three fields.
    pub fn new(name: &str, backend: &str, is_default: bool) -> (r: Account)
        ensures
            r.name@ == name@,
            r.backend@ == backend@,
            r.is_default == is_default,
    {
        Account {
            name: String::from_str(name),
            backend: String::from_str(backend),
            is_default,
        }
    }

    /// The row that a table lists for this account: one cell per field, as a
    /// column title and a value.
    pub fn cells(&self) -> (r: Vec<(String, String)>)
        ensures
            r@.len() == 3,
            r@[0].0@ == "name"@ && r@[0].1@ == self.name@,
            r@[1].0@ == "backend"@ && r@[1].1@ == self.backend@,
            r@[2].0@ == "is_default"@ && r@[2].1@ == (if self.is_default { "true"@ } else { "false"@ }),
    {
        let flag = if self.is_default { "true" } else { "false" };
        let mut r: Vec<(String, String)> = Vec::new();
        r.push((String::from_str("name"), self.name.clone()));
        r.push((String::from_str("backend"), self.backend.clone()));
        r.push((String::from_str("is_default"), String::from_str(flag)));
        r
    }

    /// Projects one configuration entry to the account that lists it.
    pub fn from_config(name: &str, config: &DeserializedAccountConfig) -> (r: Account)
        ensures
            r@ == project(name@, *config),
            r.name@ == name@,
            config is NoBackend ==> r.backend@ == "none"@ && !r.is_default,
            forall|c: BackendAccountConfig|
                #![trigger c.base.default]
                *config == DeserializedAccountConfig::Imap(c) || *config == DeserializedAccountConfig::Maildir(c)
                    || *config == DeserializedAccountConfig::Notmuch(c)
                    ==> r.is_default == (c.base.default == Some(true)),
    {
        match config {
            DeserializedAccountConfig::Imap(c) => Account::new(name, "imap", c.base.default.unwrap_or_default()),
            DeserializedAccountConfig::Maildir(c) => Account::new(name, "maildir", c.base.default.unwrap_or_default()),
            DeserializedAccountConfig::Notmuch(c) => Account::new(name, "notmuch", c.base.default.unwrap_or_default()),
            DeserializedAccountConfig::NoBackend(_) => Account::new(name, "none", false),
        }
    }
}

} // verus!
