//! Decides which addresses a host bans, for how long, and when a ban ends.

pub mod action;
pub mod address;
pub mod address_laws;
pub mod alert;
pub mod alert_laws;
pub mod budget;
pub mod clock;
pub mod config;
pub mod config_laws;
pub mod engine;
pub mod engine_laws;
pub mod extract;
pub mod extract_laws;
pub mod firewall;
pub mod handling;
pub mod ident;
pub mod progress;
pub mod release;
pub mod release_laws;
pub mod text;
pub mod text_laws;
pub mod time_laws;
