//! Three rules of a PHP linter, with their contracts: the order of named
//! arguments against a signature, the alphabetical order of named arguments,
//! and slow array functions inside loops.
pub mod argument_order;
pub mod ast;
pub mod laws;
pub mod named_argument_ordering;
pub mod order;
pub mod reporting;
pub mod rule;
pub mod slow_array_function_in_loop;
pub mod text;
