use vstd::prelude::*;

verus! {

/// Everything that can stop a run: a path segment that is missing from the
/// object it is looked up in, a non-object where the descent needs an object,
/// a non-array at the array path, a non-string at the ID path, a duplicate ID
/// while collisions are not tolerated, and input text that is not JSON.
///
/// The payload of `InvalidKey` is the missing segment; the payload of
/// `IdCollision` is the duplicated ID.
#[derive(Debug, PartialEq, Eq)]
pub enum SplitError {
    InvalidKey(String),
    NotAnObject,
    NotAnArray,
    IdNotString,
    IdCollision(String),
    ParseError,
}

} // verus!
