//! A verified core for a Linux memory scanner in the style of Cheat Engine.

pub mod text;
pub mod numeral;
pub mod codec;
pub mod value;
pub mod maps;
pub mod scan;
pub mod ieee;
pub mod process;
pub mod mem;
pub mod privilege;
pub mod json;
pub mod fspath;
pub mod agent;
pub mod detect;
pub mod config;
pub mod cdp;
pub mod rpgmaker;
pub mod choices;
pub mod cli;
pub mod panel;
