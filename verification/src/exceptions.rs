//! The error kinds shared by every container of this crate.

use vstd::prelude::*;

verus! {

/// Why a container operation could not be carried out.
#[derive(Debug, PartialEq, Eq)]
pub enum Exceptions {
    /// The index is not below the number of live elements.
    IndexOutOfBounds,
    /// The key has no entry in the table.
    KeyNotInitialized,
    /// The key already has an entry in the table.
    DuplicateKey,
    /// A traversal did not reach the element it was looking for; the message says which.
    NoSuchElement(String),
}

/// What reading index `index` of the elements `items` answers: the element
/// there, or `IndexOutOfBounds` at and beyond the end.
pub open spec fn element_at<T>(items: Seq<T>, index: usize) -> Result<T, Exceptions> {
    if index < items.len() {
        Ok(items[index as int])
    } else {
        Err(Exceptions::IndexOutOfBounds)
    }
}

} // verus!
