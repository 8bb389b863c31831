use vstd::prelude::*;

verus! {

/// The closed set of failure reasons that tree operations can report.
///
/// `UnfoundValue` carries a human-readable reason and signals that a value a
/// caller asked to remove is not present in the tree. `EmptyTree` signals an
/// operation that needs a non-empty tree, such as removing a value from, or
/// asking for the minimum of, an empty one.
#[derive(Debug, Clone, Copy, PartialEq, Eq)]
pub enum BSTError {
    UnfoundValue(&'static str),
    EmptyTree,
}

impl BSTError {
    /// A human-readable description of the error.
    pub fn message(&self) -> (r: &'static str)
        ensures
            self matches BSTError::UnfoundValue(reason) ==> r == reason,
            self is EmptyTree ==> r@ == "BST Tree is empty"@,
    {
        match self {
            BSTError::UnfoundValue(reason) => reason,
            BSTError::EmptyTree => "BST Tree is empty",
        }
    }
}

} // verus!
