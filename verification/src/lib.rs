//! Deniable storage behind an ordinary looking FAT32 disk.
//!
//! A formatted target shows a Windows-style GPT disk with one FAT32 partition.
//! Past the first free clusters of that partition lies a hidden payload range,
//! announced by one encrypted header sector and exposed as a block device once
//! the password is known.
//!
//! This crate holds what decides and computes; system calls are made by the
//! program around it, which performs the requests that the functions here hand
//! out and feeds back what the system returned.

pub mod cipher;
pub mod error;
pub mod formatted;
pub mod hazmat;
pub mod io;
pub mod msfat32;
pub mod prompt;
pub mod sanitize;
pub mod shadow;
pub mod sizes;
pub mod text;
pub mod transfer;
pub mod utils;
pub mod volume;
