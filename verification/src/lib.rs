//! A single-pass parser for short command-line flags, in the manner of
//! `ARGBEGIN` and `ARGEND`.
//!
//! An [`Args`] holds an argument vector whose first token is the program's
//! name. A scan walks the tokens after it from left to right. Each token that
//! begins with `-` is a flag token, and its second character is the flag. The
//! flag may take a value, which is the token right after the flag token. The
//! scan stops at the first token that is no flag; that token and all after it
//! are what is left for the program.
//!
//! There are two ways to scan. [`Args::parse`] makes the whole scan and calls
//! the handler given to [`Args::with_cb`] once for each flag; the handler
//! fetches the value of a flag from the [`Dispatch`] that it is handed. Or
//! the caller makes the scan step by step, with [`Args::at_flag`],
//! [`Args::enter`], [`Args::argf`] or [`Args::eargf`], and [`Args::advance`],
//! and takes what is left with [`Args::rest`].
//!
//! Long options and several flags in one token are not known here.

pub mod token;
pub mod scan;
pub mod dispatch;
pub mod args;

pub use args::Args;
pub use dispatch::Dispatch;
