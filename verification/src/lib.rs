//! Installation homes, shell profile upkeep, self-update and archive unpacking of a
//! toolchain installer: what it decides, with proofs.
//!
//! The library holds the decisions; files, processes and threads belong to its
//! callers. Where an operation alternates between the two, it is a function from
//! what the last access brought to the access that comes next.

pub mod archive;
pub mod archive_laws;
pub mod home;
pub mod path;
pub mod pool;
pub mod pool_laws;
pub mod rcfile_laws;
pub mod rcfiles;
pub mod self_update;
pub mod text;
pub mod unpack;
