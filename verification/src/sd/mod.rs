//! An SD card in SPI mode: what it says, and the operations on it.

pub mod crc;
pub mod response;
pub mod card;
pub mod bus;
pub mod command;
pub mod data;
pub mod idle;
pub mod exchange;
pub mod errand;
pub mod init;
pub mod session;
pub mod laws;
pub mod driver;
