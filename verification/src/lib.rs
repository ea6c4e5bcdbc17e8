//! Verified core of the Warden API gateway: route parsing and matching,
//! request authorization decisions, configuration rules and rate metering.
pub mod auth;
pub mod config;
pub mod jwt;
pub mod meter;
pub mod provider;
pub mod route;
pub mod router;
pub mod services;
pub mod source;
pub mod text;
pub mod tui;
pub mod utils;
