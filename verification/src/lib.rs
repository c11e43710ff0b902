//! Population-pharmacokinetics simulation support library.
//!
//! The crate holds the exactly-specified parts of a PopPK simulator:
//! the NONMEM-style control-stream parser, configuration validation,
//! the dosing regimen, and the assembly of structural-model parameter
//! sets. Quantities are carried as fixed-point decimal numbers so that
//! every rule about them is stated and checked exactly.

pub mod bytes;
pub mod config;
pub mod decimal;
pub mod dosing;
pub mod error;
pub mod models;
pub mod nonmem;
