//! Editing of hosts-style files: each line maps an address to a name and its
//! aliases, between comments and blank lines. The library parses lines into
//! records, applies one edit (add, replace, delete, alias) to the ordered
//! records and reports what changed; every function carries a contract that
//! is proved.

pub mod utils;
pub mod errors;
pub mod text;
pub mod ipaddr;
pub mod pattern;
pub mod hostentry;
pub mod hostfile;
pub mod writer;
pub mod command;
pub mod address_laws;
pub mod laws;
