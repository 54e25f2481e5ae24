//! The privilege-escalation fallback of the synchronization engine: when
//! creating a directory or copying an entry fails, the user may confirm
//! one retry of the same operation through an elevated helper process.
//!
//! The helper runs outside the library; what is verified here is when a
//! retry is offered and which arguments the helper receives.

use vstd::prelude::*;

verus! {

/// Whether a failed operation may be retried with elevated privileges:
/// only on Unix-like systems, and only after the user confirmed. A
/// declined or unavailable retry propagates the original error.
pub fn escalation_allowed(unix: bool, confirmed: bool) -> (r: bool)
    ensures
        r == (unix && confirmed),
{
    unix && confirmed
}

/// The arguments handed to the elevated helper to create a directory and
/// its missing parents.
pub fn sudo_mkdir_args(path: &String) -> (r: Vec<String>)
    ensures
        r.deep_view() == seq!["mkdir"@, "-p"@, path@],
{
    let mut v: Vec<String> = Vec::new();
    v.push(String::from_str("mkdir"));
    v.push(String::from_str("-p"));
    v.push(path.clone());
    proof {
        assert(v.deep_view() =~~= seq!["mkdir"@, "-p"@, path@]);
    }
    v
}

/// The arguments handed to the elevated helper to copy a tree
/// recursively, preserving attributes.
pub fn sudo_copy_args(source: &String, destination: &String) -> (r: Vec<String>)
    ensures
        r.deep_view() == seq!["cp"@, "-a"@, source@, destination@],
{
    let mut v: Vec<String> = Vec::new();
    v.push(String::from_str("cp"));
    v.push(String::from_str("-a"));
    v.push(source.clone());
    v.push(destination.clone());
    proof {
        assert(v.deep_view() =~~= seq!["cp"@, "-a"@, source@, destination@]);
    }
    v
}

} // verus!
