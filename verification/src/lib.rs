//! An in-memory, column-oriented table ("batch") with an all-or-nothing
//! row-append transaction: a [`writer::Writer`] appends a fixed block of rows
//! across independently typed columns, and either commits them all or rolls
//! the batch back to exactly its pre-transaction shape.

pub mod batch;
pub mod dict;
pub mod mask;
pub mod stats;
pub mod writer;
