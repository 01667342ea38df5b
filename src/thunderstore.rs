use vstd::prelude::*;

verus! {

/// One package of the community's package index.
#[derive(Debug, Clone)]
pub struct PackageListing {
    pub name: String,
    pub owner: String,
    pub full_name: String,
    pub versions: Vec<PackageVersion>,
}

/// One published version of a package.
#[derive(Debug, Clone)]
pub struct PackageVersion {
    pub version_number: String,
    pub download_url: String,
}

/// The package index as saved on disk, with the time it was fetched.
#[derive(Debug, Clone)]
pub struct ThunderstoreCache {
    pub time: u64,
    pub packages: Vec<PackageListing>,
}

} // verus!
