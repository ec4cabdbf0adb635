//! Service discovery and control logic for local Docker containers, Homebrew
//! services and user-defined command services.

pub mod text;
pub mod ports;
pub mod model;
pub mod naming;
pub mod custom;
pub mod brew;
pub mod json;
pub mod docker;
pub mod order;
pub mod catalog;
pub mod commands;
