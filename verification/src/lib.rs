//! Converts a compiled ELF executable into a UF2-encoded firmware image and
//! plans its deployment onto a USB mass-storage bootloader volume.
//!
//! The pipeline has two stages: extracting the contiguous physical memory
//! image spanned by the ELF's loadable segments, and encoding that image as a
//! stream of fixed-size UF2 blocks tagged with a target-family identifier.
//! The deploy planner decides, attempt by attempt, how a caller should locate
//! a bootloader volume and when to give up.

pub mod cli;
pub mod deploy;
pub mod elf;
pub mod error;
pub mod preset;
pub mod uf2;
