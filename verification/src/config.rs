//! Read-only build configuration: where source files are looked up, how
//! module names are separated, and which file extension sources carry.

use vstd::prelude::*;

verus! {

/// The configuration a build runs under. All fields are read-only inputs:
/// an ordered list of source-lookup directories, the token separating the
/// steps of a module name, and the extension of a source file.
#[derive(Debug)]
pub struct Config {
    pub source_directories: Vec<String>,
    pub separator: String,
    pub extension: String,
}

impl Config {
    pub fn new(source_directories: Vec<String>, separator: String, extension: String) -> (r:
        Config)
        ensures
            r.source_directories == source_directories,
            r.separator == separator,
            r.extension == extension,
    {
        Config { source_directories, separator, extension }
    }

    /// The token that separates the steps of a dotted module name.
    pub fn lookup_separator(&self) -> (r: &String)
        ensures
            r == &self.separator,
    {
        &self.separator
    }

    /// The extension appended to a candidate source file path.
    pub fn source_extension(&self) -> (r: &String)
        ensures
            r == &self.extension,
    {
        &self.extension
    }
}

} // verus!
