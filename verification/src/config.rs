//! The settings of the program.

use vstd::prelude::*;

verus! {

/// The settings of the program.
#[derive(Debug, PartialEq, Eq)]
pub struct Config {
    pub folders: Folders,
}

/// Where the program finds its files.
#[derive(Debug, PartialEq, Eq)]
pub struct Folders {
    /// The folder that holds the JSON files to work on.
    pub input_folder: String,
}

} // verus!
