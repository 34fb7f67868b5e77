//! intel_ma - Intel: Management Absent. Inspect and deblob ME/TXE/CSME, PSP, and vendor locks.

pub mod amd;
pub mod bios;
pub mod bytes;
pub mod cleaner;
pub mod crypto;
pub mod descriptor;
pub mod error;
pub mod fit;
pub mod fmt;
pub mod fpt;
pub mod gbe;
pub mod lingo;
pub mod locks;
pub mod manifest;
pub mod mei;
pub mod modules;
pub mod partitions;
pub mod pubkeys;
pub mod region;
pub mod text;

pub use cleaner::{analyze, clean, Analysis, Options, Report};
pub use error::{Error, Result};
