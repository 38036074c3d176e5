//! The package description read from the manifest when the program is built.

use vstd::prelude::*;

verus! {

/// The `[package]` table of a manifest.
#[derive(Debug, Clone, PartialEq, Eq)]
pub struct Package {
    pub name: String,
    pub version: String,
    pub description: String,
    pub homepage: Option<String>,
    pub authors: Option<Vec<String>>,
}

/// A manifest, of which only the package table is read.
#[derive(Debug, Clone, PartialEq, Eq)]
pub struct CargoDescriptor {
    pub package: Package,
}

} // verus!
