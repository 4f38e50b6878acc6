use crate::package::dependency::PackageDependency;
use crate::types::display_name::DisplayName;
use crate::types::key::Key;
use crate::types::uid::PackageUid;
use vstd::prelude::*;

verus! {

#[derive(Clone, Copy, Debug, PartialEq, Eq, Structural)]
pub enum PackageKind {
    Rules,
    Content,
    /// A map package.
    MapPackage,
    Scenario,
    Instance,
    Campaign,
}

#[derive(Clone, Debug, PartialEq, Eq)]
pub struct PackageManifest {
    pub uid: PackageUid,
    pub key: Key,
    pub name: DisplayName,
    pub kind: PackageKind,
    pub version: String,
    pub layer0_schema_version: u32,
    pub dependencies: Vec<PackageDependency>,
}

} // verus!
