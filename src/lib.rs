use vstd::prelude::*;

pub mod archive;
pub mod cli;
pub mod conflict;
pub mod error;
pub mod name;
pub mod places;
pub mod progress;
pub mod request;
pub mod scheduler;
pub mod state;
pub mod transfer;
pub mod trash;

verus! {

/// Renders an error value as its message text.
pub fn err_str(err: &str) -> (r: String)
    ensures
        r@ == err@,
{
    err.to_string()
}

} // verus!
