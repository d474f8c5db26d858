//! Quota and connection readings for the QuoDex desktop meter.

pub mod app_server;
pub mod capacity;
pub mod codex_install;
pub mod conversation;
pub mod desktop;
pub mod diagnostic;
pub mod double;
pub mod environment;
pub mod json;
pub mod ordered;
pub mod paths;
pub mod percent;
pub mod preferences;
pub mod process_output;
pub mod text;
pub mod tomato_cloud;
pub mod zcode_balance;
pub mod zcode_exchange;
pub mod zcode_plan;
pub mod zcode_quota;
pub mod zcode_service;
