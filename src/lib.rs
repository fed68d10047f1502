//! Cyclic process-data exchange core for a field-bus master: the table that
//! maps named device entries to byte ranges of the process image, the
//! per-cycle state of the exchange loop, and the register read/write logic.
pub mod config;
pub mod cycle;
pub mod gates;
pub mod offsets;
pub mod registers;
