//! The reader's views.

pub mod translation;
