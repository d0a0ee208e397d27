//! A staged binary-protection pipeline.
//!
//! The library takes the byte image of an executable and drives it through an
//! ordered list of stages: classify the container and resolve the byte ranges
//! worth analyzing, find printable-ASCII string candidates, mask them with a
//! reversible XOR transform, build an injective symbol-renaming table, and
//! derive the output artifact path. A [`runner::Runner`] state machine
//! sequences the stages, accounts for overall progress, honors a cooperative
//! cancellation flag, and guarantees that each run emits exactly one terminal
//! event, last, with non-decreasing progress values.
//!
//! All file reads and writes stay outside the library: the runner hands the
//! host an [`runner::Action`] describing the next read, write or copy, and the
//! host feeds the outcome back in.

pub mod auth;
pub mod binary;
pub mod cancel;
pub mod events;
pub mod host;
pub mod mask;
pub mod paths;
pub mod ranges;
pub mod runner;
pub mod scan;
pub mod steps;
pub mod symbols;
