//! Core of a local text-to-speech relay daemon.
//!
//! A client writes one line of text to a local socket; the daemon rewrites
//! the line according to configured whole-word substitution rules and speaks
//! the result through an external renderer/player pair. This crate holds the
//! verified core: the escape-aware rewrite engine, the rule compiler, the
//! accept-loop and shutdown decision logic, and the synthesis plan. The
//! process edges (sockets, signals, spawning the external tools) live in the
//! surrounding binary.

pub mod rewrite;
pub mod rules;
pub mod server;
pub mod synth;
pub mod text;
