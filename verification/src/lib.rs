//! A small package-manager library.
//!
//! The heart of the library is a concurrent-install scheduler modelled as a
//! verified state machine, together with the pure logic around it: semantic
//! version parsing and resolution, checksum verification of downloaded
//! archives, extraction planning with common-prefix stripping, and binary
//! link planning.  All I/O (HTTP, filesystem, prompts) lives outside the
//! library and hands plain values in and out.

pub mod strutil;
pub mod version;
pub mod scheduler;
pub mod resolver;
pub mod downloader;
pub mod archive;
pub mod installer;
pub mod package;
pub mod util;
