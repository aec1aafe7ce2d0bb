//! A local replica of an exchange's level-2 order book.
//!
//! Prices and sizes are fixed-point integers with eight decimal places
//! (see [`decimal`]); each side of the book maps a price to its resting size.
//! The [`feed`] module turns decoded feed messages into book mutations, and
//! [`laws`] states how the book's operations relate to one another.

pub mod decimal;
pub mod book;
pub mod feed;
pub mod laws;
