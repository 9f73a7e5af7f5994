//! Secure LightClaw: the verified core of a small, policy-gated assistant
//! framework.
pub mod text;
pub mod numfmt;
pub mod policy;
pub mod audit;
pub mod plugins;
pub mod memory;
pub mod scheduler;
pub mod providers;
pub mod sandbox;
pub mod channels;
pub mod agent;
pub mod config;
pub mod http;
pub mod web;
pub mod net;
pub mod telegram;
pub mod registry;
pub mod benchmark;
pub mod lc_scheduler;
pub mod toml_config;
pub mod lc_sandbox;
pub mod lc_provider;
pub mod lc_core;
pub mod adapters;
