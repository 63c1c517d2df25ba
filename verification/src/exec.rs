//! Locating the external programs the library drives.
use vstd::prelude::*;
use crate::error::Error;

verus! {

/// The location of program `name`, given what a `PATH` lookup for it found
/// (`found`); a friendly error when it found nothing.
pub fn find_program(name: &str, found: Option<String>) -> (r: Result<String, Error>)
    ensures
        match found {
            Some(p) => r matches Ok(q) && q == p,
            None => r matches Err(e) && (e matches Error::ProgramNotFound { name: n } && n@ == name@),
        },
{
    match found {
        Some(p) => Ok(p),
        None => Err(Error::ProgramNotFound { name: String::from_str(name) }),
    }
}

} // verus!
