//! Offline Debian package staging over SSH.
//!
//! The crate models the package manifest that drives the four phases of an
//! offline installation (resolve, fetch, transfer, apply), together with the
//! pure logic of each phase: rendering and parsing the persisted manifest,
//! validating package URIs, parsing the remote package manager's output,
//! planning downloads and uploads, and sequencing the remote apply steps.
//! All I/O (SSH, HTTP, the filesystem) lives outside this crate and talks to
//! it through plain values.

pub mod strutil;
pub mod errors;
pub mod uri;
pub mod codec;
pub mod ssh;
pub mod resolve;
pub mod apply;
pub mod fetch;
pub mod update;
