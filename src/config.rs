//! The account configuration shapes that the listing reads.
//!
//! Only what the listing needs is modelled: which backend an entry uses, and
//! the optional default flag of its base settings.

use vstd::prelude::*;

verus! {

/// Settings shared by every account, whatever its backend.
#[derive(Clone, Copy, Debug, PartialEq, Eq, Structural)]
pub struct BaseAccountConfig {
    /// Whether the account is the one used when none is selected.
    pub default: Option<bool>,
}

/// The configuration of an account bound to a backend.
#[derive(Clone, Copy, Debug, PartialEq, Eq, Structural)]
pub struct BackendAccountConfig {
    pub base: BaseAccountConfig,
}

/// One entry of the configuration's account mapping: one variant per
/// backend, plus `NoBackend` for an account with no backend configured.
#[derive(Clone, Copy, Debug, PartialEq, Eq, Structural)]
pub enum DeserializedAccountConfig {
    Imap(BackendAccountConfig),
    Maildir(BackendAccountConfig),
    Notmuch(BackendAccountConfig),
    NoBackend(BaseAccountConfig),
}

impl BaseAccountConfig {
    /// The default flag, `false` where it is absent.
    pub open spec fn default_flag(self) -> bool {
        match self.default {
            Some(b) => b,
            None => false,
        }
    }
}

} // verus!
