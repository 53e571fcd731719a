//! A stack-oriented to-do manager: named stacks of short text items that are
//! pushed, inspected, reordered and retired.
//!
//! The library is the part that decides. A [`data::DataStore`] holds the
//! stacks that an operation works on, as they were read from where they are
//! kept; an operation of [`effects`] loads from it, changes what it loaded,
//! saves the result back and hands out what it has to report. Reading and
//! writing the files behind a store, printing the reports and starting an
//! editor are left to the caller.
//!
//! Every operation is stated as a contract over what the store keeps: for
//! each name a sequence of items, the oldest first and the current item
//! last. [`laws`] holds what follows for the operations taken together.

pub mod cli;
pub mod data;
pub mod effects;
pub mod laws;
pub mod output;
pub mod text;
