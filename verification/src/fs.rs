use vstd::prelude::*;

use crate::error::CapnError;

verus! {

/// Filesystem access for the commit-message hook: prepending a line to the
/// message file being prepared. The live adapter rewrites the file on disk;
/// a test double records the text instead.
pub trait Fs {
    /// Writes `s`, a colon and a newline in front of the file's contents.
    fn prepend_string_to_file(s: String, filename: String) -> (r: Result<(), CapnError>);
}

} // verus!
