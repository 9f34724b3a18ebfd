//! The ways in which a name is refused.

use vstd::prelude::*;

verus! {

/// Why a name is no name. Both are cases of an invalid name; the empty text
/// has a case of its own.
#[derive(Clone, Copy, Debug, PartialEq, Eq, Structural)]
pub enum Error {
    /// The text is empty.
    EmptyName,
    /// The text breaks a rule of the path grammar, or it is the root where a
    /// path with a parent is needed.
    InvalidName,
}

} // verus!
