//! A file allocation table and an SD card driven over SPI, with every decision
//! verified and every byte of input and output left to the caller.
//!
//! * [`block`] views a run of bytes as fixed-size blocks and back.
//! * [`fat`] holds the FAT12, FAT16 and FAT32 table operations.
//! * [`sd`] holds the SD card protocol over SPI.
//!
//! No function here waits, reads or writes. An operation that has to do so is a
//! value that names the next thing to perform and is stepped with the reply.

pub mod block;
pub mod fat;
pub mod sd;
