//! A validation engine driven by schemas. A schema description is compiled
//! once into a tree of validator nodes; values of the host, or documents in
//! text, are then held against it any number of times. Each validation gives
//! the validated value, or the report of every violation with its location.
//!
//! What each function computes is stated in its contract over the models of
//! the data, and proved. The laws that relate the functions to one another
//! are the public proof functions whose names begin with `law_`.

pub mod check;
pub mod compile;
pub mod context;
pub mod engine;
pub mod errors;
pub mod json;
pub mod laws;
pub mod literal_set;
pub mod names;
pub mod numeral;
pub mod output;
pub mod rearranged;
pub mod references;
pub mod scalar;
pub mod schema;
pub mod semantics;
pub mod validate;
pub mod validator;
pub mod value;
