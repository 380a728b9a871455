//! Errors of the library.

use vstd::prelude::*;
use crate::ir::mutation::{decimal, decimal_string};

verus! {

/// Why a program failed validation.
#[derive(Debug, Clone, Copy, PartialEq, Eq, Structural)]
pub enum ValidationError {
    /// There is no function named `init`.
    MissingInit,
    /// There is no function named `step`.
    MissingStep,
    /// The function at this index has no basic blocks.
    NoBlocks { function: usize },
    /// A block other than the last one of a function is empty.
    EmptyBlock { function: usize, block: usize },
}

/// The message of a validation failure.
pub open spec fn validation_message(e: ValidationError) -> Seq<char> {
    match e {
        ValidationError::MissingInit => "Missing required 'init' function"@,
        ValidationError::MissingStep => "Missing required 'step' function"@,
        ValidationError::NoBlocks { function } => "Function "@ + decimal(function as nat) + " has no basic blocks"@,
        ValidationError::EmptyBlock { function, block } =>
            "Function "@ + decimal(function as nat) + " block "@ + decimal(block as nat) + " is empty"@,
    }
}

impl ValidationError {
    /// The message of the failure: which function is missing, or which
    /// function or block is at fault.
    pub fn message(&self) -> (r: String)
        ensures
            r@ == validation_message(*self),
    {
        match *self {
            ValidationError::MissingInit => String::from_str("Missing required 'init' function"),
            ValidationError::MissingStep => String::from_str("Missing required 'step' function"),
            ValidationError::NoBlocks { function } => {
                let f = decimal_string(function as u64);
                String::from_str("Function ").concat(f.as_str()).concat(" has no basic blocks")
            },
            ValidationError::EmptyBlock { function, block } => {
                let f = decimal_string(function as u64);
                let b = decimal_string(block as u64);
                String::from_str("Function ").concat(f.as_str()).concat(" block ").concat(b.as_str()).concat(" is empty")
            },
        }
    }
}

/// Errors of the simulation system.
#[derive(Debug, PartialEq, Eq)]
pub enum Error {
    Serialization(String),
    Validation(ValidationError),
    Wasm(String),
    ResourceExhausted(String),
    NotFound(String),
    Database(String),
    Io(String),
    Other(String),
}

} // verus!
