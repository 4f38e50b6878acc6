use crate::types::key::Key;
use vstd::prelude::*;

verus! {

#[derive(Clone, Debug, PartialEq, Eq)]
pub struct PackageDependency {
    pub package: Key,
    pub version_requirement: String,
    pub content_hash: Option<String>,
}

} // verus!
