//! A small line-search library, with a few small functions beside it.
//!
//! [`config`] reads the two arguments of a search from a command line,
//! [`lines`] says what the lines of a text are, and [`search`] finds the lines
//! that hold a query. [`closures`], [`reference`] and [`cards`] hold functions
//! on lists of numbers, on ordered values and on playing cards.
//!
//! Every function here is verified against the contract it carries.

pub mod cards;
pub mod closures;
pub mod config;
pub mod lines;
pub mod reference;
pub mod search;
mod slices;
