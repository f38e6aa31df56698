//! Ingestion of CMSIS-Pack device-family packages into a normalized registry
//! of chip families: pack-source access (directory trees and zip archives),
//! extraction of flash-programming algorithms from embedded ELF images, and
//! deterministic aggregation of per-device records.

pub mod algorithm;
pub mod bytes;
pub mod catalog;
pub mod elf;
pub mod error;
pub mod family;
pub mod model;
pub mod names;
pub mod source;
