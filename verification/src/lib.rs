//! Verified core of a small Linux package manager: index and manifest
//! parsing, source security policy, distribution detection, command-line
//! parsing and the install/remove decision logic.

pub mod text;
pub mod repo;
pub mod manifest;
pub mod security;
pub mod distro;
pub mod system_check;
pub mod install;
pub mod cli;
pub mod remove;
