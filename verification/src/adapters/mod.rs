//! Clients of the command-line tools and services that the loop drives.
pub mod beads;
pub mod hindsight;
pub mod memory_bank;
pub mod openai;
pub mod quality;
pub mod shell;
