//! Conversion of systemd service units into dinit service descriptions.

pub mod config;
pub mod converter;
pub mod counting;
pub mod dropins;
pub mod error;
pub mod generator;
pub mod laws;
pub mod mapping_laws;
pub mod model;
pub mod numeral;
pub mod output;
pub mod parser;
pub mod paths;
pub mod scope;
pub mod shellenv;
pub mod text;
pub mod units;
