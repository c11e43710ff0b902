//! Failure kinds of the library.

use vstd::prelude::*;

verus! {

/// What went wrong. The payload names the offending configuration
/// field, parameter, or input text, so a front-end can report it.
#[derive(Debug, Clone, PartialEq, Eq)]
pub enum PKError {
    InvalidModel(Vec<u8>),
    InvalidDosing(Vec<u8>),
    Simulation(Vec<u8>),
    Validation(Vec<u8>),
    Random,
}

pub type PKResult<T> = Result<T, PKError>;

} // verus!
