//! A minimal chessboard analyzer: a board file holds exactly two pieces, one
//! white and one black, and the library decides whether either piece can
//! capture the other under plain capture geometry (no blocking, no turns).
//!
//! The crate has two parts: the piece model with its per-kind capture rules
//! (`pieza`), and the board-text loader together with the four-way capture
//! verdict (`funciones`). Opening and reading the board file is left to the
//! caller; the loader here works on the file's text.

pub mod funciones;
pub mod pieza;
