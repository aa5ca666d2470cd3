//! A CEK-style abstract machine for a small strict functional language: expressions
//! are reduced step by step over an explicit control, environment and continuation
//! stack, with built-in integer and character I/O over in-memory byte streams.

pub mod ast;
pub mod val;
pub mod cek;
pub mod laws;
