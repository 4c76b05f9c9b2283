//! From a manifest of what a machine should have (links, package sources,
//! packages of several kinds, repositories, scripts) to one Bash script that
//! sets the machine up.
//!
//! The operator names sections on the command line, each with patterns that
//! select among the section's items ([`fuzzy`]). The sections that take part
//! are collected in a fixed order, each with what its patterns select
//! ([`plan`]), turned into shell text, and put together with the shell
//! functions that they share ([`manifest`]).

pub mod cli;
pub mod config;
pub mod engines;
pub mod fuzzy;
pub mod install;
pub mod links;
pub mod manifest;
pub mod path;
pub mod plan;
pub mod sorting;
pub mod table;
pub mod text;
