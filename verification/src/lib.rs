//! Shuffling and sampling of lines.
//!
//! A line source is an iterator of outcomes, each a line or a failure.
//! [`read_from_iter`] returns every delivered line in a random order;
//! [`sample_from_iter`] draws a bounded sample in one pass; a [`Shuffler`]
//! picks between the two by whether a sample size was asked for.

pub mod lines;
pub mod permute;
pub mod random;
pub mod reservoir;
pub mod shuffler;

pub use permute::read_from_iter;
pub use reservoir::sample_from_iter;
pub use shuffler::Shuffler;
