//! Verified core of the AirCard wallet-skin and passcode-theme tool.

pub mod afc;
pub mod apple;
pub mod flasher;
pub mod passthm;
pub mod paths;
pub mod pdf;
pub mod pattern;
pub mod scanner;
pub mod session;
pub mod text;
pub mod ui;
