//! Storage-to-execution pipeline of a small x86-64 kernel, with every step
//! that decides or computes something stated as a contract and proved.
//!
//! The library never touches hardware. The block device driver is a machine
//! that names one port access at a time and is told what the port answered;
//! the volume and loader functions say which sectors or pages they need and
//! work on the bytes they are handed.

pub mod execute;
pub mod file_system;
pub mod utils;
