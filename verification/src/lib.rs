//! Data linters: detect miscoded features in a tabular dataset
//! (numbers stored as strings, enums stored as floats, long free-text strings).

pub mod document;
pub mod lints;
pub mod reader;
pub mod text;

use vstd::prelude::*;

verus! {

/// The command-line arguments: the path of the dataset to lint.
#[derive(Debug)]
pub struct Args {
    pub path: String,
}

} // verus!
