//! Identifiers that the command line and the API pass around.
use vstd::prelude::*;

verus! {

/// A resource named by its UUID or its slug, as text. Its text has been
/// checked to be one of the two where it was made.
#[derive(Debug, PartialEq, Eq)]
pub struct ResourceId(pub String);

impl Clone for ResourceId {
    fn clone(&self) -> (res: Self)
        ensures
            res == *self,
    {
        ResourceId(self.0.clone())
    }
}

/// The name of a branch, as text. Its text has been checked to be a valid
/// branch name where it was made.
#[derive(Debug, PartialEq, Eq)]
pub struct BranchName(pub String);

impl Clone for BranchName {
    fn clone(&self) -> (res: Self)
        ensures
            res == *self,
    {
        BranchName(self.0.clone())
    }
}

/// A text that was refused as a resource id or a branch name; it holds the
/// text.
#[derive(Debug, PartialEq, Eq)]
pub struct ValidError(pub String);

} // verus!
