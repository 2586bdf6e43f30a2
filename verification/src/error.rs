//! The failure kinds of the store.

use vstd::prelude::*;

verus! {

/// Every fallible operation of the store returns one of these kinds, so that
/// callers can branch on what went wrong and name the offending path.
#[derive(Debug)]
pub enum Error {
    /// A resource kind's directory does not exist under the root.
    DirectoryNotFound { path: String },
    /// A named file is not among a kind's resources.
    FileNotFound { name: String, dir: String },
    /// A directory holds a file of a kind it must not. Signals a data-hygiene
    /// problem, not a missing file.
    ExtensionContamination { dir: String, offending_extension: String, allowed: Vec<String> },
    /// A resume identifier that the specification index does not hold.
    UndefinedResumePoint { series_id: String },
    /// An underlying read or listing failure.
    Io { message: String },
}

} // verus!
