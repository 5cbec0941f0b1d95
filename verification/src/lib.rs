//! Client-side construction of ledger instructions from an interface
//! definition: a typed binary codec, account resolution, instruction
//! building, transaction outcome handling and chunked program deployment.

pub mod account_laws;
pub mod accounts;
pub mod builder;
pub mod codec;
pub mod deploy;
pub mod deploy_laws;
pub mod errors;
pub mod format;
pub mod idl;
pub mod json;
pub mod laws;
pub mod loader;
pub mod model;
pub mod names;
pub mod sameness;
pub mod schema;
pub mod table;
pub mod transaction;
pub mod truncation;
pub mod value;
pub mod wire;
