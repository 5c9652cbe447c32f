//! Listing of the accounts declared in a configuration: each named entry is
//! projected to a uniform [`Account`] record, and the records are gathered in
//! an [`Accounts`] collection in a fixed order, ready to be printed as a table
//! or serialized.

pub mod account;
pub mod accounts;
pub mod config;
pub mod order;

pub use account::Account;
pub use accounts::Accounts;
pub use config::{BackendAccountConfig, BaseAccountConfig, DeserializedAccountConfig};
