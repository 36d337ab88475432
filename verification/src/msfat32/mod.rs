//! The cover disk: a GPT with a Windows-style FAT32 partition.

pub mod boot;
pub mod calendar;
pub mod crc;
pub mod fat;
pub mod geometry;
pub mod gpt;
pub mod ids;
pub mod plan;
