//! The organism ABI: what an organism senses and the actions it requests
//! through its host imports.

pub mod context;
