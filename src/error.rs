use vstd::prelude::*;

verus! {

#[verifier::external_type_specification]
#[verifier::external_body]
pub struct ExIoError(std::io::Error);

/// What can go wrong while resolving or reading a directory.
#[derive(Debug)]
pub enum ExplorerError {
    /// Reading or resolving a path failed.
    Io(std::io::Error),
    /// The directory given at start-up does not exist; holds its text.
    InvalidDirectory(String),
    /// Access to a path was refused.
    PermissionDenied(String),
}

} // verus!
