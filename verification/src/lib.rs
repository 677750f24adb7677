//! Account readiness and transfer workflow for a wallet client.
//!
//! The library models the local wallet store (aliases, addresses, key
//! records), decides every step of the reveal-then-transfer workflow, and
//! carries the text-level helpers the wallet file handling needs.  All
//! network, chain and file work stays outside, in the surrounding
//! application, which feeds results back in as plain values.

pub mod amount;
pub mod errors;
pub mod menu;
pub mod readiness;
pub mod sections;
pub mod store;
pub mod text;
pub mod transfer;

pub use errors::Failure;
