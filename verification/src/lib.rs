//! Backend logic of FanTom, a dashboard for reading, editing and flashing the
//! ROMs of engine control units with the nisprog programmer.
//!
//! The library composes the programmer's command sessions, decides where the
//! programmer and its files are found, reads and writes calibration tables in
//! ROM images, and walks through folders of table definitions. It touches no
//! file and starts no process: what the outside world shows is handed to it as
//! plain values.
//!
//! - [`ecu`], [`ecu_laws`]: ECU labels, device numbers and kernel names.
//! - [`locate`], [`locate_laws`]: where the programmer, its kernels and its output are.
//! - [`session`], [`session_laws`]: command sessions and their results.
//! - [`rom_table`], [`table_laws`]: calibration tables in ROM images.
//! - [`definitions`], [`definitions_laws`]: definition files.
//! - [`failure`]: failures of the outside world, in words.
//! - [`numeral`], [`numeral_laws`], [`text`], [`text_laws`], [`unicode`]: numbers
//!   and text.
pub mod definitions;
pub mod definitions_laws;
pub mod ecu;
pub mod ecu_laws;
pub mod failure;
pub mod locate;
pub mod locate_laws;
pub mod numeral;
pub mod numeral_laws;
pub mod rom_table;
pub mod session;
pub mod session_laws;
pub mod table_laws;
pub mod text;
pub mod text_laws;
pub mod unicode;
