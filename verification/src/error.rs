//! The failures that operations on the document tree report.

use vstd::prelude::*;

verus! {

/// Why an operation on the tree was refused. Every refusal leaves the tree as it was.
#[derive(Clone, Copy, Debug, PartialEq, Eq, Structural)]
pub enum Error {
    /// An offset lies outside the character data it addresses, or a range of it begins or
    /// ends within a character.
    IndexSize,
    /// A name is malformed, or the node is of a kind the operation has no meaning for.
    Syntax,
    /// A structural precondition does not hold, such as an attribute operation on a node
    /// that is no element.
    InvalidState,
    /// The parent's kind admits no child of the given kind, or the insertion would close a cycle.
    HierarchyRequest,
    /// The new child belongs to another document than the parent.
    WrongDocument,
    /// A prefix cannot be reconciled with the namespace it is used with.
    Namespace,
    /// A name holds a character that no name may hold.
    InvalidCharacter,
    /// The node referred to is no child, or no attribute, of the node operated on.
    NotFound,
}

} // verus!
