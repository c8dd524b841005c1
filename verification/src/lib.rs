//! WiFi and LAN statistics: the decisions behind a terminal dashboard.

pub mod text;
pub mod number;
pub mod binary64;
pub mod model;
pub mod oui;
pub mod addr;
pub mod textmap;
pub mod rate;
pub mod wifi;
pub mod lan;
pub mod router;
pub mod config;
pub mod cli;
pub mod sort;
pub mod merge;
pub mod collect;
pub mod view;
pub mod report;
pub mod keys;
pub mod dashboard;
pub mod setup;
