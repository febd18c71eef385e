//! Compiles the description of a microcontroller (peripherals, registers,
//! bit fields, interrupts) into an abstract set of declarations for a
//! register access API.
//!
//! A compilation is a function of one description. It runs in stages:
//!
//! - `resolve` gives every derived peripheral the entries of its base;
//! - `expand` turns repeated registers and clusters into single registers;
//! - `field` and `register` compute masks and access modes, build the
//!   mapping from raw values to variants, and find fields that share a bit;
//! - `peripheral` and `address` find registers and peripherals that take
//!   the same address;
//! - `ident` assigns valid identifiers that are unique within their scope;
//! - `interrupt` lays the interrupts out in a table indexed by vector
//!   number;
//! - `emit` and `device` put the stages together and list the
//!   declarations.
//!
//! Each stage states what it computes as a function on the mathematical
//! model of the description (`model`), and fails with the first error it
//! finds (`error`).

pub mod address;
pub mod bits;
pub mod counting;
pub mod device;
pub mod emit;
pub mod error;
pub mod expand;
pub mod fallible;
pub mod field;
pub mod ident;
pub mod interrupt;
pub mod model;
pub mod peripheral;
pub mod register;
pub mod resolve;
pub mod span;
pub mod text;
