//! Error taxonomy shared by every storage and service operation.

use vstd::prelude::*;

verus! {

/// What can go wrong in a storage or service call.
///
/// `NotFound` and `InvalidInput` are recoverable and name the offending
/// entity; `Conflict` reports a uniqueness violation at the access layer;
/// `Database` and `Storage` report failures of the underlying store; `Io`
/// reports a failure around the note-content files.
#[derive(Debug)]
pub enum Error {
    Database(String),
    Io(String),
    NotFound(String),
    InvalidInput(String),
    Conflict(String),
    Storage(String),
}

} // verus!
