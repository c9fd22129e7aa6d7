//! A source-based package installer library: a durable, append-only ledger of
//! package installation outcomes, and the pure decision logic of the
//! fetch -> build -> install pipeline that maintains it.

pub mod codec;
pub mod command;
pub mod errors;
pub mod executor;
pub mod ident;
pub mod ledger;
pub mod pipeline;
pub mod records;

pub use ident::PackageIdentity;
