//! Locating and rewriting one UTF-8 constant of a compiled Java class file.
//!
//! The scanner walks the constant pool of a class file held in memory and
//! reports where a given UTF-8 constant lies; the patcher overwrites one byte
//! at such an offset. Reading and writing the file itself is left to the
//! caller.

pub mod error;
pub mod jar;
pub mod laws;
pub mod marker;
pub mod options;
pub mod patcher;
pub mod pool;
pub mod scanner;
