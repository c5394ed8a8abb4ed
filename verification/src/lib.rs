//! A verified log exporter.
//!
//! The library models the one operation the application performs: write a
//! text log to a destination path, creating the missing directory chain
//! first and overwriting any file already at that path. The filesystem is
//! modelled explicitly ([`fs_model::FsModel`]), so the operation's effect
//! — which directories come to exist, what the file holds afterwards, and
//! exactly when each error is reported — is stated and proved rather than
//! assumed. A host program performs the same steps against the real
//! filesystem, taking the path analysis and the error messages from here.

pub mod errors;
pub mod fs_model;
pub mod laws;
pub mod paths;
