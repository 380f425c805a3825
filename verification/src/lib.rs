//! A resumable integer-code virtual machine and the drivers that steer it.
//!
//! The machine in [`intcoder`] executes a program of signed 64-bit words until
//! it halts, emits a value or needs a value from its caller, and hands control
//! back at exactly those points. [`model`] says what every instruction does,
//! and [`theorems`] what follows from that for every program.
//!
//! Everything else drives one or more machines through that interface:
//! [`multicoder`] keeps a group of machines and carries values round it,
//! [`explorer`] steers a droid through an unknown area and charts it,
//! [`asciicoder`] collects the picture that a machine prints, and [`board`]
//! finds a route over such a picture. [`program`] reads a program from text.

pub mod asciicoder;
pub mod board;
pub mod explorer;
pub mod intcoder;
pub mod model;
pub mod multicoder;
pub mod program;
pub mod theorems;
pub mod tile;
