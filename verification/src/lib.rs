//! A bridge between a browser extension and a UCI chess engine, written
//! without any I/O of its own.
//!
//! The extension speaks length-prefixed JSON frames, the engine speaks
//! newline-terminated UCI text. Every type here is a buffer or a state that the
//! caller feeds with the bytes it has read and drains of the bytes it has to
//! write, so that each step between the two protocols has a contract over plain
//! sequences.

pub mod error;
pub mod buffer;
pub mod config_parser;
pub mod engine;
pub mod frame;
pub mod io;
pub mod listener;
pub mod position;
pub mod text;
