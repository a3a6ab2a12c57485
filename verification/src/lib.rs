pub mod action;
pub mod ai;
pub mod ascii;
pub mod commands;
pub mod config;
pub mod connect;
pub mod drugs;
pub mod irc;
pub mod laws;
pub mod pattern;
pub mod rng;
pub mod sasl;
pub mod sed;
pub mod text;
pub mod vomit;
