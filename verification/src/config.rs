//! Configuration consumed by the collaborators around the core: which file
//! extensions mark a document, and the command line that opens one. Reading
//! the configuration file itself happens outside the verified core; this
//! module holds the parsed value.

use vstd::prelude::*;

verus! {

/// The user's configuration: document extensions and viewer command line.
#[derive(Debug)]
pub struct Config {
    pub document_extension: Vec<String>,
    pub viewer: Vec<String>,
}

impl Config {
    pub fn new(document_extension: Vec<String>, viewer: Vec<String>) -> (r: Config)
        ensures
            r == (Config { document_extension, viewer }),
    {
        Config { document_extension, viewer }
    }

    pub fn document_extension(&self) -> (r: &Vec<String>)
        ensures
            r == &self.document_extension,
    {
        &self.document_extension
    }

    pub fn viewer(&self) -> (r: &Vec<String>)
        ensures
            r == &self.viewer,
    {
        &self.viewer
    }
}

} // verus!
