use vstd::prelude::*;

verus! {

/// A technical error: something went wrong with the machinery of a check
/// (a missing file, a failed subprocess, a malformed input), as opposed to a
/// policy failure, which is an ordinary verdict.
#[derive(Debug)]
pub struct CapnError {
    pub reason: String,
}

impl CapnError {
    pub fn new(reason: &str) -> (r: CapnError)
        ensures
            r.reason@ == reason@,
    {
        CapnError { reason: reason.to_owned() }
    }
}

} // verus!
