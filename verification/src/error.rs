//! Errors of the tree and of proof verification.

use sparse_merkle_tree::error::Error;
use vstd::prelude::*;

verus! {

/// Why an operation on a tree or a proof failed.
#[derive(Clone, Copy, Debug, PartialEq, Eq, Structural)]
pub enum TreeError {
    /// The node store could not resolve a node it was asked for.
    StoreError,
    /// The proof is not consistent in itself.
    MalformedProof,
    /// The keys given do not fit the keys the proof was made for.
    KeyMismatch,
}

/// The failures the tree crate reports, by kind only.
#[derive(Clone, Copy, Debug, PartialEq, Eq, Structural)]
pub enum ErrorKind {
    /// The store lacks a branch node.
    MissingBranch,
    /// The store lacks a leaf.
    MissingLeaf,
    /// The proof does not fit the keys it is replayed with.
    CorruptedProof,
    /// The proof is empty.
    EmptyProof,
    /// No keys were given.
    EmptyKeys,
    /// The number of leaves is not the number the proof was made for.
    IncorrectNumberOfLeaves,
    /// The store reported a failure of its own.
    Store,
    /// Replaying the proof ran out of intermediate results, or left some.
    CorruptedStack,
    /// Two nodes to be merged are no siblings.
    NonSiblings,
    /// The compiled proof holds an unknown instruction.
    InvalidCode,
    /// Two ranges of a compiled proof cannot be merged.
    NonMergableRange,
}

/// The error reported for each kind of failure.
pub open spec fn tree_error_spec(kind: ErrorKind) -> TreeError {
    match kind {
        ErrorKind::MissingBranch | ErrorKind::MissingLeaf | ErrorKind::Store => {
            TreeError::StoreError
        },
        ErrorKind::EmptyKeys | ErrorKind::IncorrectNumberOfLeaves => TreeError::KeyMismatch,
        ErrorKind::CorruptedProof
        | ErrorKind::EmptyProof
        | ErrorKind::CorruptedStack
        | ErrorKind::NonSiblings
        | ErrorKind::InvalidCode
        | ErrorKind::NonMergableRange => TreeError::MalformedProof,
    }
}

/// Maps a kind of failure to the error reported for it: store failures to
/// `StoreError`, a wrong number of keys to `KeyMismatch`, everything that
/// is wrong with a proof to `MalformedProof`.
pub fn tree_error(kind: ErrorKind) -> (error: TreeError)
    ensures
        error == tree_error_spec(kind),
{
    match kind {
        ErrorKind::MissingBranch => TreeError::StoreError,
        ErrorKind::MissingLeaf => TreeError::StoreError,
        ErrorKind::Store => TreeError::StoreError,
        ErrorKind::EmptyKeys => TreeError::KeyMismatch,
        ErrorKind::IncorrectNumberOfLeaves => TreeError::KeyMismatch,
        ErrorKind::CorruptedProof => TreeError::MalformedProof,
        ErrorKind::EmptyProof => TreeError::MalformedProof,
        ErrorKind::CorruptedStack => TreeError::MalformedProof,
        ErrorKind::NonSiblings => TreeError::MalformedProof,
        ErrorKind::InvalidCode => TreeError::MalformedProof,
        ErrorKind::NonMergableRange => TreeError::MalformedProof,
    }
}

impl TreeError {
    /// The description of the error.
    pub open spec fn message_spec(&self) -> Seq<char> {
        match self {
            TreeError::StoreError => "the node store is corrupted"@,
            TreeError::MalformedProof => "the proof is malformed"@,
            TreeError::KeyMismatch => "the keys do not match the proof"@,
        }
    }

    /// A short description of the error.
    pub fn message(&self) -> (text: &'static str)
        ensures
            text@ == self.message_spec(),
    {
        match self {
            TreeError::StoreError => "the node store is corrupted",
            TreeError::MalformedProof => "the proof is malformed",
            TreeError::KeyMismatch => "the keys do not match the proof",
        }
    }
}

/// The tree crate's error type, carried through as an opaque value.
#[verifier::external_type_specification]
#[verifier::external_body]
pub struct ExError(Error);

/// The variant of a tree crate error.
pub uninterp spec fn error_kind(error: Error) -> ErrorKind;

/// Trusted: tells the variants of `sparse_merkle_tree::error::Error` apart,
/// dropping their fields.
#[verifier::external_body]
pub(crate) fn classify(error: &Error) -> (kind: ErrorKind)
    ensures
        kind == error_kind(*error),
{
    match error {
        Error::MissingBranch(..) => ErrorKind::MissingBranch,
        Error::MissingLeaf(..) => ErrorKind::MissingLeaf,
        Error::CorruptedProof => ErrorKind::CorruptedProof,
        Error::EmptyProof => ErrorKind::EmptyProof,
        Error::EmptyKeys => ErrorKind::EmptyKeys,
        Error::IncorrectNumberOfLeaves { .. } => ErrorKind::IncorrectNumberOfLeaves,
        Error::Store(..) => ErrorKind::Store,
        Error::CorruptedStack => ErrorKind::CorruptedStack,
        Error::NonSiblings => ErrorKind::NonSiblings,
        Error::InvalidCode(..) => ErrorKind::InvalidCode,
        Error::NonMergableRange => ErrorKind::NonMergableRange,
    }
}

} // verus!
