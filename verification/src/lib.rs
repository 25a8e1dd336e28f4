//! A small persistence layer that keeps individual typed scalar and list
//! values in plain-text files, with the file content as the sole source of
//! truth.
//!
//! The crate itself never touches the filesystem: every function here works
//! on plain values, and a caller performs the actual reads and writes,
//! handing file contents in and encoded text out. That keeps all encoding,
//! type-tag enforcement and error classification verifiable.
pub mod codec;
pub mod file;
pub mod group;
pub mod lines;
pub mod property;
