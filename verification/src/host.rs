//! The coding assistant whose sessions are gated: how it is called and where it
//! keeps its files.
use vstd::prelude::*;

verus! {

#[derive(Debug, PartialEq, Eq)]
pub struct Assistant {
    /// What it is called.
    pub name: String,
    /// The product as users know it.
    pub product: String,
    /// Its directory in a repository.
    pub dir: String,
    /// The file with instructions for it.
    pub memory: String,
}

} // verus!
