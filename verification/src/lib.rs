//! Verified model pricing and configuration rules.

pub mod call_rates;
pub mod catalog;
pub mod clock;
pub mod config_auth;
pub mod config_file;
pub mod config_types;
pub mod currency;
pub mod entry;
pub mod file_cache;
pub mod fx;
pub mod json;
pub mod migrations;
pub mod model;
pub mod money_display;
pub mod order;
pub mod paths;
pub mod price_layers;
pub mod pricing_config;
pub mod pricing_memo;
pub mod pricing_section;
pub mod pricing_sources;
pub mod provider_activity;
pub mod provider_names;
pub mod providers;
pub mod rate;
pub mod removals;
pub mod route_pricing;
pub mod rule_types;
pub mod rules;
pub mod source_registry;
pub mod spend_summary;
pub mod text;
pub mod toml_merge;
pub mod toml_tree;
pub mod toml_value;
pub mod vendor_files;
