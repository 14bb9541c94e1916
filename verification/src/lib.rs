//! A launcher that gives each project an isolated, deterministic build
//! directory, derived from the project path: a stable base name extracted
//! from the path, joined with a 32-bit FNV-1 fingerprint of the full path.
//!
//! The crate holds the launcher's logic: path normalization, hashing,
//! build-directory resolution, command-line parsing and launch planning.
//! Reading the environment, showing text to the user and spawning the
//! editor process stay outside, in the binary around this library.
//!
//! Policy: a missing positional project directory is not an error and does
//! not show the help text; the editor is launched with no environment
//! override and no directory argument.

pub mod args;
pub mod dispatch;
pub mod errors;
pub mod hash;
pub mod paths;
pub mod resolve;
pub mod text;
pub mod trace;
