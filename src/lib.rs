//! A line-oriented memory monitor: a command language over text lines that
//! reads, writes and dumps a fixed RAM window, guarded by address validation.
pub mod command;
pub mod console;
pub mod hex;
pub mod laws;
pub mod memory;
pub mod monitor;
