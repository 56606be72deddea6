//! The parts of a journal transaction.

pub mod posting;
