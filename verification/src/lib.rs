//! Inventory tracking for a wine collection: a ledger of bottle movements,
//! grape associations, comments and the derivation of stored label images.
//!
//! Every function in this crate is verified against the contract it carries;
//! the few calls into other crates are isolated in small wrappers whose
//! contracts are stated next to them.

pub mod error;
pub mod clock;
pub mod ledger;
pub mod picture;
pub mod text;
pub mod sizing;
pub mod imaging;
pub mod comments;
pub mod grapes;
pub mod form;
pub mod state;
pub mod cellar;
