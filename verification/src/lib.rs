//! A sandboxed key-document store: named JSON documents kept in one flat,
//! application-private directory, behind a strict naming policy that keeps
//! every operation inside that directory.
//!
//! The crate is split along the store's two layers of defense:
//! `validate` holds the naming policy, `paths` the lexical containment check
//! that every disk operation re-applies, `listing` the filename filter used
//! when enumerating the directory, and `store` the store's operations over an
//! explicit directory state, so that their contracts are stated and proved
//! against the directory's contents.

pub mod errors;
pub mod listing;
pub mod paths;
pub mod store;
pub mod validate;
