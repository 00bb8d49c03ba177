//! Plain data: the history feed's listing and the configuration.
pub mod api;
pub mod app_config;
pub mod config;
