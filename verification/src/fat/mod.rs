//! The file allocation table: what its entries say, and the operations on it.

pub mod entry;
pub mod laws;
pub mod stream;
pub mod access;
pub mod scan;
pub mod format;
pub mod allocate;
pub mod chain;
